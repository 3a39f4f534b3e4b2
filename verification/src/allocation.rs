//! Which voice speaks a batch, and what the table of voices learns from it.

use crate::ai::{
    copy_option, copy_strings, opt_text, AllocationSource, CharacterView, CharacterVoice,
    EntryView, SpeakerResult, VoiceAllocationEntry, VoiceAllocationTable, VoiceCategory,
};
use crate::api::{pair_views, Pair};
use crate::args::Cli;
use crate::batches::BatchData;
use crate::dialogue::{manual_tag, parse_manual_speaker_tag, ManualTag, ManualTagView};
use crate::messages::{analysis_message, analysis_says};
use crate::order::{is_text_le, lemma_text_le_total, lemma_text_le_trans, text_le};
use crate::path::{file_name, file_name_of};
use crate::search::{
    contains_text, holds_text, lemma_find_from, lemma_holds_text, occurs_at, remove_first, same,
    without_first,
};
use crate::text::{blank, copy, is_blank, lemma_trimmed, texts, trim, trimmed};
use vstd::prelude::*;

verus! {

/// The view of an optional character.
pub open spec fn opt_character(o: Option<CharacterVoice>) -> Option<CharacterView> {
    match o {
        Some(c) => Some(c@),
        None => None,
    }
}

/// The view of an optional entry.
pub open spec fn opt_entry(o: Option<VoiceAllocationEntry>) -> Option<EntryView> {
    match o {
        Some(e) => Some(e@),
        None => None,
    }
}

/// The view of optional texts.
pub open spec fn opt_texts(o: Option<Vec<String>>) -> Option<Seq<Seq<char>>> {
    match o {
        Some(v) => Some(texts(v@)),
        None => None,
    }
}

/// The bit pattern of the confidence below which a speaker is to be confirmed, 0.6.
pub const REVIEW_CONFIDENCE: u32 = 0x3F19_999A;

/// The bit pattern of full confidence, 1.
pub const FULL_CONFIDENCE: u32 = 0x3F80_0000;

/// The bit pattern of negative infinity.
pub const NEGATIVE_INFINITY: u32 = 0xFF80_0000;

/// The bit pattern of negative zero.
pub const NEGATIVE_ZERO: u32 = 0x8000_0000;

/// Whether a speaker is to be confirmed: the confidence is unknown or below 0.6.
pub open spec fn unsure(confidence: Option<u32>) -> bool {
    match confidence {
        None => true,
        Some(bits) => bits < REVIEW_CONFIDENCE || NEGATIVE_ZERO <= bits <= NEGATIVE_INFINITY,
    }
}

/// Whether a speaker is to be confirmed.
pub fn needs_review(confidence: Option<u32>) -> (r: bool)
    ensures
        r == unsure(confidence),
{
    match confidence {
        None => true,
        Some(bits) => bits < REVIEW_CONFIDENCE || (NEGATIVE_ZERO <= bits && bits
            <= NEGATIVE_INFINITY),
    }
}

/// Whether a name is that of the crowd.
pub open spec fn crowd(name: Seq<char>) -> bool {
    holds_text(name, "群众"@)
}

/// Whether a name is that of the crowd.
pub fn is_crowd(name: &str) -> (r: bool)
    ensures
        r == crowd(name@),
{
    contains_text(name, "群众")
}

/// Whether a name is that of the crowd, or what a wrong encoding makes of it.
pub open spec fn crowd_or_garbled(name: Seq<char>) -> bool {
    holds_text(name, "群众"@) || holds_text(name, "缇や紬"@)
}

/// Whether a name is that of the crowd, or what a wrong encoding makes of it.
pub fn is_crowd_or_garbled(name: &str) -> (r: bool)
    ensures
        r == crowd_or_garbled(name@),
{
    contains_text(name, "群众") || contains_text(name, "缇や紬")
}

/// Where the voice of a speaker is to come from.
#[derive(Debug)]
pub enum VoiceSource {
    /// The voice that the table has for the speaker.
    Table(String),
    /// The character that the speaker was recognised as.
    Character,
    /// The voices of the speaker's category.
    Pool,
}

/// Whether the table fixes the voice: the entry is locked or was made by hand, and has a voice.
pub open spec fn fixed_voice(entry: Option<EntryView>) -> Option<Seq<char>> {
    match entry {
        Some(e) if (e.locked || e.source == AllocationSource::Manual) && e.voice_id.len() > 0 => Some(
            e.voice_id,
        ),
        _ => None,
    }
}

/// Where the voice of a speaker is to come from: the table where it fixes the voice, else the
/// character that the speaker was recognised as, else the voices of the category.
pub fn voice_source(
    existing: &Option<VoiceAllocationEntry>,
    matched: &Option<CharacterVoice>,
) -> (r: VoiceSource)
    ensures
        match fixed_voice(opt_entry(*existing)) {
            Some(v) => r matches VoiceSource::Table(id) && id@ == v,
            None => if matched is Some {
                r is Character
            } else {
                r is Pool
            },
        },
{
    if let Some(entry) = existing {
        if (entry.locked || entry.source == AllocationSource::Manual)
            && entry.voice_id.as_str().unicode_len() > 0 {
            return VoiceSource::Table(entry.voice_id.clone());
        }
    }
    if matched.is_some() {
        VoiceSource::Character
    } else {
        VoiceSource::Pool
    }
}

/// The voice of a speaker: the table's where the voice comes from there, else the one that was found
/// for the character or in the category, else the fallback.
pub fn speaker_voice(
    source: &VoiceSource,
    found: Option<String>,
    fallback: Option<String>,
) -> (r: Option<String>)
    ensures
        match *source {
            VoiceSource::Table(v) => r == Some(v),
            _ => r == if found is Some {
                found
            } else {
                fallback
            },
        },
{
    match source {
        VoiceSource::Table(v) => Some(v.clone()),
        _ => {
            if found.is_some() {
                found
            } else {
                fallback
            }
        },
    }
}

/// The category of a speaker: that of the character, else the inferred one, else the table's.
pub open spec fn category_for(
    matched: Option<CharacterView>,
    inferred: Option<VoiceCategory>,
    existing: Option<EntryView>,
) -> Option<VoiceCategory> {
    let first = match matched {
        Some(c) => c.category,
        None => None,
    };
    if first is Some {
        first
    } else if inferred is Some {
        inferred
    } else {
        match existing {
            Some(e) => e.category,
            None => None,
        }
    }
}

/// The aliases, with those of `more` that are not blank and, trimmed, not among them.
pub open spec fn aliases_with(aliases: Seq<Seq<char>>, more: Seq<Seq<char>>) -> Seq<Seq<char>>
    decreases more.len(),
{
    if more.len() == 0 {
        aliases
    } else {
        let before = aliases_with(aliases, more.drop_last());
        let alias = more.last();
        if blank(alias) || before.contains(trimmed(alias)) {
            before
        } else {
            before.push(alias)
        }
    }
}

/// The aliases of a speaker: those of the character, else the merged ones, else the table's; with
/// the merged ones added.
pub open spec fn aliases_for(
    matched: Option<CharacterView>,
    merged: Option<Seq<Seq<char>>>,
    existing: Option<EntryView>,
) -> Seq<Seq<char>> {
    let first = match matched {
        Some(c) => c.aliases,
        None => match merged {
            Some(m) => m,
            None => match existing {
                Some(e) => e.aliases,
                None => seq![],
            },
        },
    };
    match merged {
        Some(m) => aliases_with(first, m),
        None => first,
    }
}

/// Where the voice of a speaker came from.
pub open spec fn source_for(
    matched: Option<CharacterView>,
    existing: Option<EntryView>,
) -> AllocationSource {
    if matched matches Some(c) && c.voice_id is Some {
        AllocationSource::CharacterOverride
    } else if matched matches Some(c) && c.category is Some {
        AllocationSource::CharacterCategory
    } else if existing matches Some(e) && e.source == AllocationSource::Manual {
        AllocationSource::Manual
    } else {
        AllocationSource::AIInferred
    }
}

/// The name of a speaker: that of the character, else the table's, else the one that was found.
pub open spec fn name_for(
    matched: Option<CharacterView>,
    existing: Option<EntryView>,
    speaker: Seq<char>,
) -> Seq<char> {
    match matched {
        Some(c) => c.name,
        None => match existing {
            Some(e) => e.character_name,
            None => speaker,
        },
    }
}

/// The label of an optional category.
pub open spec fn label_for(category: Option<VoiceCategory>) -> Option<Seq<char>> {
    match category {
        Some(c) => Some(c.label_of()),
        None => None,
    }
}

/// The entry that an analysis makes for a speaker. It is locked.
pub open spec fn speaker_entry_of(
    speaker: SpeakerResult,
    matched: Option<CharacterView>,
    existing: Option<EntryView>,
    merged: Option<Seq<Seq<char>>>,
    inferred: Option<VoiceCategory>,
    voice: Seq<char>,
) -> EntryView {
    let category = category_for(matched, inferred, existing);
    EntryView {
        character_name: name_for(matched, existing, speaker.name@),
        aliases: aliases_for(matched, merged, existing),
        category,
        category_label: label_for(category),
        voice_id: voice,
        source: source_for(matched, existing),
        locked: true,
        volume: None,
        speed: None,
        pitch: None,
        confidence: speaker.confidence,
        reason: opt_text(speaker.reason),
        needs_review: unsure(speaker.confidence),
    }
}

fn label_text(category: Option<VoiceCategory>) -> (r: Option<String>)
    ensures
        opt_text(r) == label_for(category),
{
    match category {
        Some(c) => Some(copy(c.label())),
        None => None,
    }
}

fn has_alias(aliases: &Vec<String>, alias: &str) -> (b: bool)
    ensures
        b == texts(aliases@).contains(alias@),
{
    let ghost views = texts(aliases@);
    let mut i: usize = 0;
    while i < aliases.len()
        invariant
            i <= aliases@.len(),
            views == texts(aliases@),
            forall|k: int| 0 <= k < i ==> #[trigger] views[k] != alias@,
        decreases aliases@.len() - i,
    {
        assert(views[i as int] == aliases@[i as int]@);
        if same(aliases[i].as_str(), alias) {
            return true;
        }
        i += 1;
    }
    false
}

fn add_aliases(aliases: &mut Vec<String>, more: &Vec<String>)
    ensures
        texts(final(aliases)@) == aliases_with(texts(old(aliases)@), texts(more@)),
{
    let ghost first = texts(aliases@);
    let ghost views = texts(more@);
    let mut i: usize = 0;
    assert(views.take(0) =~= seq![]);
    while i < more.len()
        invariant
            i <= more@.len(),
            views == texts(more@),
            texts(aliases@) == aliases_with(first, views.take(i as int)),
        decreases more@.len() - i,
    {
        let ghost before = texts(aliases@);
        let alias = more[i].as_str();
        proof {
            assert(views.take(i + 1).drop_last() =~= views.take(i as int));
            assert(views.take(i + 1).last() == alias@);
            lemma_trimmed(alias@);
        }
        if !is_blank(alias) && !has_alias(aliases, trim(alias).as_str()) {
            aliases.push(copy(alias));
            assert(texts(aliases@) =~= before.push(alias@));
        }
        i += 1;
    }
    assert(views.take(i as int) =~= views);
}

/// The entry that an analysis makes for a speaker.
pub fn speaker_entry(
    speaker: &SpeakerResult,
    matched: &Option<CharacterVoice>,
    existing: &Option<VoiceAllocationEntry>,
    merged_aliases: &Option<Vec<String>>,
    inferred: Option<VoiceCategory>,
    voice_id: &str,
) -> (r: VoiceAllocationEntry)
    ensures
        r@ == speaker_entry_of(
            *speaker,
            opt_character(*matched),
            opt_entry(*existing),
            opt_texts(*merged_aliases),
            inferred,
            voice_id@,
        ),
{
    let mut category = match matched {
        Some(c) => c.category,
        None => None,
    };
    if category.is_none() {
        category = inferred;
    }
    if category.is_none() {
        category = match existing {
            Some(e) => e.category,
            None => None,
        };
    }
    let mut aliases = match matched {
        Some(c) => copy_strings(&c.aliases),
        None => match merged_aliases {
            Some(m) => copy_strings(m),
            None => match existing {
                Some(e) => copy_strings(&e.aliases),
                None => {
                    let none: Vec<String> = Vec::new();
                    assert(texts(none@) =~= seq![]);
                    none
                },
            },
        },
    };
    if let Some(m) = merged_aliases {
        add_aliases(&mut aliases, m);
    }
    let source = match matched {
        Some(c) if c.voice_id.is_some() => AllocationSource::CharacterOverride,
        Some(c) if c.category.is_some() => AllocationSource::CharacterCategory,
        _ => match existing {
            Some(e) if e.source == AllocationSource::Manual => AllocationSource::Manual,
            _ => AllocationSource::AIInferred,
        },
    };
    let character_name = match matched {
        Some(c) => c.name.clone(),
        None => match existing {
            Some(e) => e.character_name.clone(),
            None => speaker.name.clone(),
        },
    };
    VoiceAllocationEntry {
        character_name,
        aliases,
        category,
        category_label: label_text(category),
        voice_id: copy(voice_id),
        source,
        locked: true,
        volume: None,
        speed: None,
        pitch: None,
        confidence: speaker.confidence,
        reason: copy_option(&speaker.reason),
        needs_review: needs_review(speaker.confidence),
    }
}

/// What becomes of the table of voices.
#[derive(Debug)]
pub enum TableWrite {
    /// Nothing.
    Leave,
    /// It is saved as it is.
    Keep,
    /// The entry is taken over, and the table is saved.
    Upsert(VoiceAllocationEntry),
}

/// What becomes of the table of voices, as a value.
#[verifier::ext_equal]
pub enum WriteView {
    Leave,
    Keep,
    Upsert(EntryView),
}

impl View for TableWrite {
    type V = WriteView;

    open spec fn view(&self) -> WriteView {
        match self {
            TableWrite::Leave => WriteView::Leave,
            TableWrite::Keep => WriteView::Keep,
            TableWrite::Upsert(e) => WriteView::Upsert(e@),
        }
    }
}

/// What becomes of the table when a speaker is to be recorded or not, the table has an entry for
/// the speaker or none, and a new entry was made: a locked entry stays.
pub open spec fn write_for(
    recorded: bool,
    existing: Option<EntryView>,
    entry: EntryView,
) -> WriteView {
    if !recorded {
        WriteView::Leave
    } else if locked(existing) {
        WriteView::Keep
    } else {
        WriteView::Upsert(entry)
    }
}

/// Whether an entry is locked.
pub open spec fn locked(entry: Option<EntryView>) -> bool {
    entry matches Some(e) && e.locked
}

/// Whether an entry is locked.
pub fn is_locked(entry: &Option<VoiceAllocationEntry>) -> (r: bool)
    ensures
        r == locked(opt_entry(*entry)),
{
    match entry {
        Some(e) => e.locked,
        None => false,
    }
}

/// What the table of voices learns of a speaker, where there is a table and the speaker is to be
/// recorded: the entry, unless the one it has is locked.
pub fn speaker_write(
    recorded: bool,
    speaker: &SpeakerResult,
    matched: &Option<CharacterVoice>,
    existing: &Option<VoiceAllocationEntry>,
    merged_aliases: &Option<Vec<String>>,
    inferred: Option<VoiceCategory>,
    voice_id: &str,
) -> (r: TableWrite)
    ensures
        r@ == write_for(
            recorded,
            opt_entry(*existing),
            speaker_entry_of(
                *speaker,
                opt_character(*matched),
                opt_entry(*existing),
                opt_texts(*merged_aliases),
                inferred,
                voice_id@,
            ),
        ),
{
    if !recorded {
        TableWrite::Leave
    } else if is_locked(existing) {
        TableWrite::Keep
    } else {
        TableWrite::Upsert(
            speaker_entry(speaker, matched, existing, merged_aliases, inferred, voice_id),
        )
    }
}

/// Whether an analysis records a speaker in the table of voices: there is a table, the name does
/// not look garbled, and the crowd only where that is wanted.
pub open spec fn recorded_by_analysis(
    has_table: bool,
    garbled: bool,
    save_crowd: bool,
    name: Seq<char>,
) -> bool {
    has_table && !garbled && (save_crowd || !crowd_or_garbled(name))
}

/// What the table of voices learns of a speaker that an analysis found, and what is said of it;
/// `voice` is the voice that its source gave.
pub fn record_speaker_allocation(
    has_table: bool,
    garbled: bool,
    save_crowd_characters: bool,
    speaker: &SpeakerResult,
    matched: &Option<CharacterVoice>,
    existing: &Option<VoiceAllocationEntry>,
    merged_aliases: &Option<Vec<String>>,
    inferred: Option<VoiceCategory>,
    voice: &Option<String>,
) -> (r: (TableWrite, Option<String>))
    ensures
        r.0@ == write_for(
            recorded_by_analysis(has_table, garbled, save_crowd_characters, speaker.name@),
            opt_entry(*existing),
            speaker_entry_of(
                *speaker,
                opt_character(*matched),
                opt_entry(*existing),
                opt_texts(*merged_aliases),
                inferred,
                text_or_empty(*voice),
            ),
        ),
        opt_text(r.1) == analysis_says(has_table, garbled, speaker.name@, r.0@),
{
    let recorded = has_table && !garbled && (save_crowd_characters || !is_crowd_or_garbled(
        speaker.name.as_str(),
    ));
    let voice_id = unwrap_text(voice);
    let write = speaker_write(
        recorded,
        speaker,
        matched,
        existing,
        merged_aliases,
        inferred,
        voice_id.as_str(),
    );
    let message = analysis_message(has_table, garbled, speaker.name.as_str(), &write);
    (write, message)
}

/// An optional text; the empty text where there is none.
pub open spec fn text_or_empty(o: Option<String>) -> Seq<char> {
    match o {
        Some(s) => s@,
        None => seq![],
    }
}

fn unwrap_text(o: &Option<String>) -> (r: String)
    ensures
        r@ == text_or_empty(*o),
{
    match o {
        Some(s) => s.clone(),
        None => {
            let r = String::new();
            assert(r@ =~= seq![]);
            r
        },
    }
}

/// The voice of quotations whose speaker has no voice.
pub open spec fn default_dialogue_voice(args: Cli) -> Option<String> {
    if args.voice_dialogue is Some {
        args.voice_dialogue
    } else {
        args.voice
    }
}

/// The voice of quotations whose speaker has no voice.
pub fn fallback_voice(args: &Cli) -> (r: Option<String>)
    ensures
        r == default_dialogue_voice(*args),
{
    if args.voice_dialogue.is_some() {
        copy_option(&args.voice_dialogue)
    } else {
        copy_option(&args.voice)
    }
}

/// What is to be done about the speaker of a batch.
#[derive(Debug)]
pub enum BatchPlan {
    /// The batch is no quotation.
    Narration,
    /// The batch begins with a speaker tag.
    Manual(ManualTag),
    /// The speaker is known.
    Known,
    /// The speaker is to be asked for.
    Identify,
    /// The quotation has the voice of quotations.
    Default,
}

/// What is to be done about the speaker of a batch. Speakers are asked for unless only a saved
/// analysis counts.
pub fn plan_batch(
    batch: &BatchData,
    speaker: &Option<SpeakerResult>,
    require_existing_analysis: bool,
    use_ai: bool,
) -> (r: BatchPlan)
    ensures
        if !batch.is_dialogue {
            r is Narration
        } else {
            match manual_tag(batch.text@) {
                Some(t) => r matches BatchPlan::Manual(m) && m@ == t,
                None => if speaker is Some {
                    r is Known
                } else if !require_existing_analysis && use_ai {
                    r is Identify
                } else {
                    r is Default
                },
            }
        },
{
    if !batch.is_dialogue {
        return BatchPlan::Narration;
    }
    match parse_manual_speaker_tag(batch.text.as_str()) {
        Some(t) => BatchPlan::Manual(t),
        None => if speaker.is_some() {
            BatchPlan::Known
        } else if !require_existing_analysis && use_ai {
            BatchPlan::Identify
        } else {
            BatchPlan::Default
        },
    }
}

/// Where the voice of a tagged speaker is to come from.
#[derive(Debug)]
pub enum ManualVoice {
    /// The voice that the table has for the speaker.
    Table(String),
    /// The voices of the category that the tag names.
    Allocate(VoiceCategory),
    /// The voice of quotations.
    Default,
}

/// Where the voice of a tagged speaker is to come from.
pub fn manual_voice(
    existing: &Option<VoiceAllocationEntry>,
    category: Option<VoiceCategory>,
) -> (r: ManualVoice)
    ensures
        if opt_entry(*existing) matches Some(e) && e.voice_id.len() > 0 {
            r matches ManualVoice::Table(v) && v@ == opt_entry(*existing)->0.voice_id
        } else {
            match category {
                Some(c) => r == ManualVoice::Allocate(c),
                None => r is Default,
            }
        },
{
    if let Some(entry) = existing {
        if entry.voice_id.as_str().unicode_len() > 0 {
            return ManualVoice::Table(entry.voice_id.clone());
        }
    }
    match category {
        Some(c) => ManualVoice::Allocate(c),
        None => ManualVoice::Default,
    }
}

/// The entry that a tag makes for a speaker. It is locked.
pub open spec fn manual_entry_of(
    tag: ManualTagView,
    existing: Option<EntryView>,
    voice: Seq<char>,
) -> EntryView {
    let category = if tag.category is Some {
        tag.category
    } else {
        match existing {
            Some(e) => e.category,
            None => None,
        }
    };
    EntryView {
        character_name: match existing {
            Some(e) => e.character_name,
            None => tag.name,
        },
        aliases: match existing {
            Some(e) => e.aliases,
            None => seq![],
        },
        category,
        category_label: label_for(category),
        voice_id: voice,
        source: AllocationSource::Manual,
        locked: true,
        volume: None,
        speed: None,
        pitch: None,
        confidence: Some(FULL_CONFIDENCE),
        reason: Some("手动标注"@),
        needs_review: false,
    }
}

/// What the table of voices learns of a tag: the entry, unless the one it has is locked.
pub fn manual_write(
    has_table: bool,
    tag: &ManualTag,
    existing: &Option<VoiceAllocationEntry>,
    voice: &Option<String>,
) -> (r: TableWrite)
    ensures
        r@ == write_for(
            has_table,
            opt_entry(*existing),
            manual_entry_of(tag@, opt_entry(*existing), text_or_empty(*voice)),
        ),
{
    if !has_table {
        return TableWrite::Leave;
    }
    if is_locked(existing) {
        return TableWrite::Keep;
    }
    let category = match tag.category {
        Some(c) => Some(c),
        None => match existing {
            Some(e) => e.category,
            None => None,
        },
    };
    let character_name = match existing {
        Some(e) => e.character_name.clone(),
        None => tag.name.clone(),
    };
    let aliases = match existing {
        Some(e) => copy_strings(&e.aliases),
        None => {
            let none: Vec<String> = Vec::new();
            assert(texts(none@) =~= seq![]);
            none
        },
    };
    let entry = VoiceAllocationEntry {
        character_name,
        aliases,
        category,
        category_label: label_text(category),
        voice_id: unwrap_text(voice),
        source: AllocationSource::Manual,
        locked: true,
        volume: None,
        speed: None,
        pitch: None,
        confidence: Some(FULL_CONFIDENCE),
        reason: Some(copy("手动标注")),
        needs_review: false,
    };
    assert(entry@ =~= manual_entry_of(tag@, opt_entry(*existing), text_or_empty(*voice)));
    TableWrite::Upsert(entry)
}

/// A request for speech.
#[derive(Debug)]
pub struct SpeechRequest {
    pub text: String,
    pub voice: Option<String>,
    pub volume: u8,
    pub speed: u8,
    pub pitch: u8,
}

/// The value of an entry, else that for quotations, else the general one.
pub open spec fn level(entry: Option<u8>, dialogue: Option<u8>, general: u8) -> u8 {
    match entry {
        Some(v) => v,
        None => match dialogue {
            Some(v) => v,
            None => general,
        },
    }
}

fn pick_level(entry: Option<u8>, dialogue: Option<u8>, general: u8) -> (r: u8)
    ensures
        r == level(entry, dialogue, general),
{
    match entry {
        Some(v) => v,
        None => match dialogue {
            Some(v) => v,
            None => general,
        },
    }
}

/// What of an entry bears on how its speaker sounds: volume, speed, pitch.
pub open spec fn entry_levels(entry: Option<EntryView>) -> (Option<u8>, Option<u8>, Option<u8>) {
    match entry {
        Some(e) => (e.volume, e.speed, e.pitch),
        None => (None, None, None),
    }
}

/// The request for a batch that is no quotation.
pub fn narration_request(args: &Cli, batch: &BatchData) -> (r: SpeechRequest)
    ensures
        r.text@ == batch.text@,
        r.voice == args.voice,
        r.volume == args.volume,
        r.speed == args.speed,
        r.pitch == args.pitch,
{
    SpeechRequest {
        text: batch.text.clone(),
        voice: copy_option(&args.voice),
        volume: args.volume,
        speed: args.speed,
        pitch: args.pitch,
    }
}

/// The request for a quotation: with the voice and with the levels of the speaker's entry, and
/// without the tag.
pub fn dialogue_request(
    args: &Cli,
    batch: &BatchData,
    tag: &Option<ManualTag>,
    voice: Option<String>,
    entry: &Option<VoiceAllocationEntry>,
) -> (r: SpeechRequest)
    ensures
        r.text@ == match *tag {
            Some(t) => without_first(batch.text@, t.tag@),
            None => batch.text@,
        },
        r.voice == voice,
        ({
            let (volume, speed, pitch) = entry_levels(opt_entry(*entry));
            &&& r.volume == level(volume, args.volume_dialogue, args.volume)
            &&& r.speed == level(speed, args.speed_dialogue, args.speed)
            &&& r.pitch == level(pitch, args.pitch_dialogue, args.pitch)
        }),
        *entry matches Some(e) ==> {
            &&& e.volume matches Some(v) ==> r.volume == v
            &&& e.speed matches Some(v) ==> r.speed == v
            &&& e.pitch matches Some(v) ==> r.pitch == v
        },
{
    let (volume, speed, pitch) = match entry {
        Some(e) => (e.volume, e.speed, e.pitch),
        None => (None, None, None),
    };
    let text = match tag {
        Some(t) => remove_first(batch.text.as_str(), t.tag.as_str()),
        None => batch.text.clone(),
    };
    SpeechRequest {
        text,
        voice,
        volume: pick_level(volume, args.volume_dialogue, args.volume),
        speed: pick_level(speed, args.speed_dialogue, args.speed),
        pitch: pick_level(pitch, args.pitch_dialogue, args.pitch),
    }
}

/// Whether a conversion records a speaker in the table of voices: there is a table, and the crowd
/// only where that is wanted.
pub fn recorded_by_conversion(has_table: bool, save_crowd: bool, name: &str) -> (r: bool)
    ensures
        r == (has_table && (save_crowd || !crowd(name@))),
{
    has_table && (save_crowd || !is_crowd(name))
}

/// The entry that a conversion leaves for a name that was given a voice and is not in the table.
pub open spec fn leftover(name: Seq<char>, voice_id: Seq<char>) -> EntryView {
    EntryView {
        character_name: name,
        aliases: seq![],
        category: None,
        category_label: None,
        voice_id,
        source: AllocationSource::AIInferred,
        locked: true,
        volume: None,
        speed: None,
        pitch: None,
        confidence: None,
        reason: None,
        needs_review: false,
    }
}

/// The entry that a conversion leaves for a name that was given a voice and is not in the table.
pub fn leftover_entry(name: &str, voice_id: &str) -> (r: VoiceAllocationEntry)
    ensures
        r@ == leftover(name@, voice_id@),
{
    let r = VoiceAllocationEntry {
        character_name: copy(name),
        aliases: Vec::new(),
        category: None,
        category_label: None,
        voice_id: copy(voice_id),
        source: AllocationSource::AIInferred,
        locked: true,
        volume: None,
        speed: None,
        pitch: None,
        confidence: None,
        reason: None,
        needs_review: false,
    };
    assert(r@.aliases =~= seq![]);
    r
}

/// The entry of an edit by hand.
pub fn edited_entry(name: &str, voice_id: &str, is_locked: bool) -> (r: VoiceAllocationEntry)
    ensures
        r@ == (EntryView {
            character_name: name@,
            aliases: seq![],
            category: None,
            category_label: None,
            voice_id: voice_id@,
            source: AllocationSource::Manual,
            locked: is_locked,
            volume: None,
            speed: None,
            pitch: None,
            confidence: None,
            reason: None,
            needs_review: false,
        }),
{
    let r = VoiceAllocationEntry {
        character_name: copy(name),
        aliases: Vec::new(),
        category: None,
        category_label: None,
        voice_id: copy(voice_id),
        source: AllocationSource::Manual,
        locked: is_locked,
        volume: None,
        speed: None,
        pitch: None,
        confidence: None,
        reason: None,
        needs_review: false,
    };
    assert(r@.aliases =~= seq![]);
    r
}

/// The table that a book starts with: what was saved, or one without entries; none where speakers
/// are not recognised.
pub fn create_live_allocation_table(
    use_ai: bool,
    saved: Option<VoiceAllocationTable>,
    file_path: &str,
) -> (r: Option<VoiceAllocationTable>)
    ensures
        if !use_ai {
            r is None
        } else {
            match saved {
                Some(t) => r == Some(t),
                None => r matches Some(t) && t.schema_version == 2 && t.file_path@ == file_path@
                    && t.novel_title@.len() == 0 && t.entries@.len() == 0 && t.generated_at == 0,
            }
        },
{
    if !use_ai {
        return None;
    }
    match saved {
        Some(t) => Some(t),
        None => Some(
            VoiceAllocationTable {
                schema_version: 2,
                file_path: copy(file_path),
                novel_title: String::new(),
                entries: Vec::new(),
                generated_at: 0,
            },
        ),
    }
}

/// Gives a table that states no version of its layout the present one. The entries stay as they are:
/// texts that an older layout wrote in another way are not rewritten.
pub fn normalize_allocation_table(table: VoiceAllocationTable) -> (r: VoiceAllocationTable)
    ensures
        r.schema_version == if table.schema_version == 0 {
            2
        } else {
            table.schema_version
        },
        r.file_path == table.file_path,
        r.novel_title == table.novel_title,
        r.entries == table.entries,
        r.generated_at == table.generated_at,
{
    let mut table = table;
    if table.schema_version == 0 {
        table.schema_version = 2;
    }
    table
}

/// The position of the first entry with that name.
pub open spec fn entry_position(entries: Seq<VoiceAllocationEntry>, name: Seq<char>) -> Option<int>
    decreases entries.len(),
{
    if entries.len() == 0 {
        None
    } else {
        match entry_position(entries.drop_last(), name) {
            Some(i) => Some(i),
            None => if entries.last().character_name@ == name {
                Some(entries.len() - 1)
            } else {
                None
            },
        }
    }
}

/// The entry that is found has the name, and where none is found none has it.
proof fn lemma_entry_position(entries: Seq<VoiceAllocationEntry>, name: Seq<char>)
    ensures
        match entry_position(entries, name) {
            Some(i) => 0 <= i < entries.len() && entries[i].character_name@ == name && forall|k: int|
                0 <= k < i ==> (#[trigger] entries[k]).character_name@ != name,
            None => forall|k: int|
                0 <= k < entries.len() ==> (#[trigger] entries[k]).character_name@ != name,
        },
    decreases entries.len(),
{
    if entries.len() > 0 {
        let front = entries.drop_last();
        lemma_entry_position(front, name);
        assert forall|k: int| 0 <= k < front.len() implies #[trigger] entries[k] == front[k] by {}
    }
}

/// The position of the first entry with that name. Aliases do not count, and names are the same
/// only letter for letter.
pub fn lookup_entry(table: &VoiceAllocationTable, name: &str) -> (r: Option<usize>)
    ensures
        match entry_position(table.entries@, name@) {
            Some(i) => r matches Some(j) && j == i && i < table.entries@.len(),
            None => r is None,
        },
{
    let ghost entries = table.entries@;
    let mut i: usize = 0;
    proof {
        lemma_entry_position(entries, name@);
    }
    while i < table.entries.len()
        invariant
            i <= entries.len(),
            entries == table.entries@,
            forall|k: int| 0 <= k < i ==> (#[trigger] entries[k]).character_name@ != name@,
        decreases entries.len() - i,
    {
        if same(table.entries[i].character_name.as_str(), name) {
            proof {
                lemma_entry_position(entries, name@);
            }
            return Some(i);
        }
        i += 1;
    }
    proof {
        lemma_entry_position(entries, name@);
    }
    None
}

/// The entries with an entry taken over: in the place of the first one with its name, else at the
/// end.
pub open spec fn with_entry(
    entries: Seq<VoiceAllocationEntry>,
    entry: VoiceAllocationEntry,
) -> Seq<VoiceAllocationEntry> {
    match entry_position(entries, entry.character_name@) {
        Some(i) => entries.update(i, entry),
        None => entries.push(entry),
    }
}

/// Takes an entry over into the table.
pub fn upsert_entry(table: &mut VoiceAllocationTable, entry: VoiceAllocationEntry)
    ensures
        final(table).entries@ == with_entry(old(table).entries@, entry),
        final(table).schema_version == old(table).schema_version,
        final(table).file_path == old(table).file_path,
        final(table).novel_title == old(table).novel_title,
        final(table).generated_at == old(table).generated_at,
{
    match lookup_entry(table, entry.character_name.as_str()) {
        Some(i) => {
            table.entries.set(i, entry);
        },
        None => {
            table.entries.push(entry);
        },
    }
}

/// An entry that was taken over is found by its name, and no entry of another name is changed.
pub proof fn law_entries_are_found_by_name(
    entries: Seq<VoiceAllocationEntry>,
    entry: VoiceAllocationEntry,
)
    ensures
        entry_position(with_entry(entries, entry), entry.character_name@) matches Some(i)
            && with_entry(entries, entry)[i] == entry,
        forall|k: int|
            0 <= k < entries.len() && (#[trigger] entries[k]).character_name@
                != entry.character_name@ ==> with_entry(entries, entry)[k] == entries[k],
{
    let name = entry.character_name@;
    let after = with_entry(entries, entry);
    lemma_entry_position(entries, name);
    lemma_entry_position(after, name);
    let at = match entry_position(entries, name) {
        Some(i) => i,
        None => entries.len() as int,
    };
    assert(after[at] == entry);
    match entry_position(after, name) {
        Some(i) => {
            if i < at {
                assert(after[i] == entries[i]);
            }
        },
        None => {},
    }
}

/// Whether an entry has that name.
pub open spec fn has_entry(entries: Seq<VoiceAllocationEntry>, name: Seq<char>) -> bool {
    exists|i: int| 0 <= i < entries.len() && (#[trigger] entries[i]).character_name@ == name
}

/// Of names and their voices those whose name no entry has, each name once.
pub open spec fn unlisted(entries: Seq<VoiceAllocationEntry>, voices: Seq<Pair>) -> Seq<Pair>
    decreases voices.len(),
{
    if voices.len() == 0 {
        seq![]
    } else {
        let before = unlisted(entries, voices.drop_last());
        let voice = voices.last();
        if has_entry(entries, voice.0) || exists|i: int|
            0 <= i < before.len() && (#[trigger] before[i]).0 == voice.0 {
            before
        } else {
            before.push(voice)
        }
    }
}

/// Adds an entry for each name that was given a voice and has none. No entry that is there is
/// changed, and every name has one in the end.
pub fn collect_leftovers(table: &mut VoiceAllocationTable, voices: &Vec<(String, String)>)
    ensures
        ({
            let before = old(table).entries@;
            let after = final(table).entries@;
            let more = unlisted(before, pair_views(voices@));
            &&& after.len() == before.len() + more.len()
            &&& forall|i: int| 0 <= i < before.len() ==> #[trigger] after[i] == before[i]
            &&& forall|i: int|
                0 <= i < more.len() ==> (#[trigger] after[before.len() + i])@ == leftover(
                    more[i].0,
                    more[i].1,
                )
            &&& forall|i: int|
                0 <= i < voices@.len() ==> has_entry(after, (#[trigger] voices@[i]).0@)
        }),
        final(table).schema_version == old(table).schema_version,
        final(table).file_path == old(table).file_path,
        final(table).novel_title == old(table).novel_title,
        final(table).generated_at == old(table).generated_at,
{
    let ghost before = table.entries@;
    let ghost views = pair_views(voices@);
    let mut i: usize = 0;
    assert(views.take(0) =~= seq![]);
    while i < voices.len()
        invariant
            i <= voices@.len(),
            views == pair_views(voices@),
            before == old(table).entries@,
            table.schema_version == old(table).schema_version,
            table.file_path == old(table).file_path,
            table.novel_title == old(table).novel_title,
            table.generated_at == old(table).generated_at,
            table.entries@.len() == before.len() + unlisted(before, views.take(i as int)).len(),
            forall|k: int|
                0 <= k < before.len() ==> #[trigger] table.entries@[k] == before[k],
            forall|k: int|
                0 <= k < unlisted(before, views.take(i as int)).len() ==> (
                #[trigger] table.entries@[before.len() + k])@ == leftover(
                    unlisted(before, views.take(i as int))[k].0,
                    unlisted(before, views.take(i as int))[k].1,
                ),
            forall|k: int|
                0 <= k < i ==> has_entry(table.entries@, (#[trigger] voices@[k]).0@),
        decreases voices@.len() - i,
    {
        let ghost now = table.entries@;
        let ghost listed = unlisted(before, views.take(i as int));
        let ghost name = voices@[i as int].0@;
        proof {
            assert(views.take(i + 1).drop_last() =~= views.take(i as int));
            assert(views.take(i + 1).last() == (name, voices@[i as int].1@));
            lemma_entry_position(now, name);
        }
        match lookup_entry(table, voices[i].0.as_str()) {
            Some(at) => {
                proof {
                    assert(now[at as int].character_name@ == name);
                    if at < before.len() {
                        assert(before[at as int].character_name@ == name);
                    } else {
                        let k = at - before.len();
                        assert(now[before.len() + k]@ == leftover(listed[k].0, listed[k].1));
                        assert(listed[k].0 == name);
                    }
                }
            },
            None => {
                let entry = leftover_entry(voices[i].0.as_str(), voices[i].1.as_str());
                table.entries.push(entry);
                proof {
                    if has_entry(before, name) {
                        let k = choose|k: int|
                            0 <= k < before.len() && (#[trigger] before[k]).character_name@ == name;
                        assert(now[k].character_name@ == name);
                    }
                    if exists|k: int| 0 <= k < listed.len() && (#[trigger] listed[k]).0 == name {
                        let k = choose|k: int|
                            0 <= k < listed.len() && (#[trigger] listed[k]).0 == name;
                        assert(now[before.len() + k]@.character_name == name);
                    }
                    assert(table.entries@[now.len() as int].character_name@ == name);
                    assert forall|k: int| 0 <= k < i implies has_entry(
                        table.entries@,
                        (#[trigger] voices@[k]).0@,
                    ) by {
                        let m = choose|m: int|
                            0 <= m < now.len() && (#[trigger] now[m]).character_name@
                                == voices@[k].0@;
                        assert(table.entries@[m] == now[m]);
                    }
                }
            },
        }
        i += 1;
    }
    assert(views.take(i as int) =~= views);
}

/// What is listed of a table.
#[derive(Debug)]
pub struct TableSummary {
    pub file_path: String,
    pub novel_title: String,
    pub entry_count: usize,
    pub generated_at: u64,
    pub file_name: String,
}

/// What is listed of a table; without a file name where its path has none.
pub fn summarize_table(table: &VoiceAllocationTable) -> (r: TableSummary)
    ensures
        r.file_path == table.file_path,
        r.novel_title == table.novel_title,
        r.entry_count == table.entries@.len(),
        r.generated_at == table.generated_at,
        r.file_name@ == match file_name_of(table.file_path@) {
            Some(n) => n,
            None => seq![],
        },
{
    let name = match file_name(table.file_path.as_str()) {
        Some(n) => n,
        None => String::new(),
    };
    TableSummary {
        file_path: table.file_path.clone(),
        novel_title: table.novel_title.clone(),
        entry_count: table.entries.len(),
        generated_at: table.generated_at,
        file_name: name,
    }
}

/// Whether tables are listed in the order of their file names.
pub open spec fn summaries_in_order(v: Seq<TableSummary>) -> bool {
    forall|i: int, j: int|
        0 <= i < j < v.len() ==> text_le(
            (#[trigger] v[i]).file_name@,
            (#[trigger] v[j]).file_name@,
        )
}

proof fn lemma_insert_summary(v: Seq<TableSummary>, i: int, x: TableSummary)
    requires
        summaries_in_order(v),
        0 <= i <= v.len(),
        forall|k: int| 0 <= k < i ==> !text_le(x.file_name@, (#[trigger] v[k]).file_name@),
        i < v.len() ==> text_le(x.file_name@, v[i].file_name@),
    ensures
        summaries_in_order(v.insert(i, x)),
        v.insert(i, x).to_multiset() == v.to_multiset().insert(x),
{
    let w = v.insert(i, x);
    vstd::seq_lib::to_multiset_insert(v, i, x);
    assert forall|a: int, b: int| 0 <= a < b < w.len() implies text_le(
        (#[trigger] w[a]).file_name@,
        (#[trigger] w[b]).file_name@,
    ) by {
        if b < i {
            assert(w[a] == v[a] && w[b] == v[b]);
        } else if b == i {
            assert(w[a] == v[a]);
            lemma_text_le_total(x.file_name@, v[a].file_name@);
        } else if a < i {
            assert(w[a] == v[a] && w[b] == v[b - 1]);
        } else if a == i {
            assert(w[b] == v[b - 1]);
            if b - 1 > i {
                lemma_text_le_trans(
                    x.file_name@,
                    v[i].file_name@,
                    v[b - 1].file_name@,
                );
            }
        } else {
            assert(w[a] == v[a - 1] && w[b] == v[b - 1]);
        }
    }
}

/// Lists tables in the order of their file names.
pub fn sort_summaries(summaries: Vec<TableSummary>) -> (r: Vec<TableSummary>)
    ensures
        summaries_in_order(r@),
        r@.to_multiset() == summaries@.to_multiset(),
{
    let ghost all = summaries@;
    let mut rest = summaries;
    let mut r: Vec<TableSummary> = Vec::new();
    proof {
        assert(all.skip(all.len() as int) =~= r@);
        assert(all.take(all.len() as int) =~= all);
    }
    while rest.len() > 0
        invariant
            rest@.len() <= all.len(),
            rest@ == all.take(rest@.len() as int),
            summaries_in_order(r@),
            r@.to_multiset() == all.skip(rest@.len() as int).to_multiset(),
        decreases rest@.len(),
    {
        let ghost n = rest@.len() as int;
        if let Some(x) = rest.pop() {
            let ghost sorted = r@;
            let mut i: usize = 0;
            while i < r.len() && !is_text_le(x.file_name.as_str(), r[i].file_name.as_str())
                invariant
                    i <= r@.len(),
                    r@ == sorted,
                    forall|k: int|
                        0 <= k < i ==> !text_le(
                            x.file_name@,
                            (#[trigger] sorted[k]).file_name@,
                        ),
                decreases r@.len() - i,
            {
                i += 1;
            }
            proof {
                lemma_insert_summary(sorted, i as int, x);
                let tail = all.skip(n);
                assert(all.skip(n - 1) =~= tail.insert(0, x));
                vstd::seq_lib::to_multiset_insert(tail, 0, x);
            }
            r.insert(i, x);
        }
    }
    assert(all.skip(0) =~= all);
    r
}

/// A table that is saved with no time is saved with the present one; none where the table names
/// no file. The entries stay as they are: texts that an older layout wrote in another way are not
/// rewritten.
pub fn accept_edited_table(table: VoiceAllocationTable, now: u64) -> (r: Option<
    VoiceAllocationTable,
>)
    ensures
        r is None <==> blank(table.file_path@),
        r matches Some(t) ==> t.generated_at == (if table.generated_at == 0 {
            now
        } else {
            table.generated_at
        }) && t.schema_version == (if table.schema_version == 0 {
            2
        } else {
            table.schema_version
        }) && t.file_path == table.file_path && t.novel_title == table.novel_title && t.entries
            == table.entries,
{
    if is_blank(table.file_path.as_str()) {
        return None;
    }
    let mut table = table;
    if table.generated_at == 0 {
        table.generated_at = now;
    }
    Some(normalize_allocation_table(table))
}

/// Once the table has a locked entry for a speaker, nothing writes over it: neither an analysis,
/// a conversion nor a tag.
pub proof fn law_locked_entries_are_kept(
    recorded: bool,
    existing: Option<EntryView>,
    entry: EntryView,
)
    requires
        locked(existing),
    ensures
        !(write_for(recorded, existing, entry) is Upsert),
{
}

/// What is written of a speaker is locked, so that nothing that follows writes over it.
pub proof fn law_written_entries_are_locked(
    speaker: SpeakerResult,
    matched: Option<CharacterView>,
    existing: Option<EntryView>,
    merged: Option<Seq<Seq<char>>>,
    inferred: Option<VoiceCategory>,
    voice: Seq<char>,
    tag: ManualTagView,
)
    ensures
        locked(Some(speaker_entry_of(speaker, matched, existing, merged, inferred, voice))),
        locked(Some(manual_entry_of(tag, existing, voice))),
        voice.len() > 0 ==> fixed_voice(
            Some(speaker_entry_of(speaker, matched, existing, merged, inferred, voice)),
        ) == Some(voice),
{
}

/// How a quotation sounds: as loud, fast and high as the entry of its speaker says, whatever the
/// settings are; where the entry says nothing, as the settings say for quotations; and as they say for
/// everything only where neither says anything.
pub proof fn law_the_entry_of_the_speaker_comes_first(
    entry: Option<EntryView>,
    dialogue: Option<u8>,
    general: u8,
)
    ensures
        ({
            let (volume, speed, pitch) = entry_levels(entry);
            &&& entry matches Some(e) ==> {
                &&& e.volume matches Some(v) ==> level(volume, dialogue, general) == v
                &&& e.speed matches Some(v) ==> level(speed, dialogue, general) == v
                &&& e.pitch matches Some(v) ==> level(pitch, dialogue, general) == v
            }
            &&& (entry is None || entry->0.volume is None) ==> {
                &&& dialogue matches Some(v) ==> level(volume, dialogue, general) == v
                &&& dialogue is None ==> level(volume, dialogue, general) == general
            }
            &&& (entry is None || entry->0.speed is None) ==> {
                &&& dialogue matches Some(v) ==> level(speed, dialogue, general) == v
                &&& dialogue is None ==> level(speed, dialogue, general) == general
            }
            &&& (entry is None || entry->0.pitch is None) ==> {
                &&& dialogue matches Some(v) ==> level(pitch, dialogue, general) == v
                &&& dialogue is None ==> level(pitch, dialogue, general) == general
            }
        }),
{
}

/// A voice is fixed exactly by an entry that has one and is locked or was made by hand, and it is the
/// entry's.
pub proof fn law_fixed_voices_are_kept(e: EntryView)
    ensures
        fixed_voice(None) is None,
        fixed_voice(Some(e)) is Some <==> e.voice_id.len() > 0 && (e.locked || e.source
            == AllocationSource::Manual),
        fixed_voice(Some(e)) matches Some(v) ==> v == e.voice_id,
{
}

/// Quotations have the voice for quotations, and that of everything else where none is set.
pub proof fn law_quotations_have_their_voice(args: Cli)
    ensures
        args.voice_dialogue is Some ==> default_dialogue_voice(args) == args.voice_dialogue,
        args.voice_dialogue is None ==> default_dialogue_voice(args) == args.voice,
{
}

/// What an analysis writes of a speaker: what is configured for the character comes before what was
/// found, and that before what the table has; the voice is the one that was resolved, and what was
/// found of the speaker's confidence is kept.
pub proof fn law_configured_characters_come_first(
    speaker: SpeakerResult,
    matched: Option<CharacterView>,
    existing: Option<EntryView>,
    merged: Option<Seq<Seq<char>>>,
    inferred: Option<VoiceCategory>,
    voice: Seq<char>,
)
    ensures
        ({
            let e = speaker_entry_of(speaker, matched, existing, merged, inferred, voice);
            &&& e.voice_id == voice
            &&& e.locked
            &&& e.volume is None && e.speed is None && e.pitch is None
            &&& e.confidence == speaker.confidence
            &&& e.reason == opt_text(speaker.reason)
            &&& e.needs_review == unsure(speaker.confidence)
            &&& e.aliases == aliases_for(matched, merged, existing)
            &&& e.category_label is Some <==> e.category is Some
            &&& e.category matches Some(c) ==> e.category_label == Some(c.label_of())
            &&& matched matches Some(c) ==> {
                &&& e.character_name == c.name
                &&& c.category is Some ==> e.category == c.category
                &&& c.voice_id is Some ==> e.source == AllocationSource::CharacterOverride
                &&& c.voice_id is None && c.category is Some ==> e.source
                    == AllocationSource::CharacterCategory
            }
            &&& matched is None && existing is Some ==> e.character_name
                == existing->0.character_name
            &&& matched is None && existing is None ==> e.character_name == speaker.name@
            &&& (matched is None || matched->0.category is None) ==> {
                &&& inferred is Some ==> e.category == inferred
                &&& inferred is None && existing is Some ==> e.category == existing->0.category
                &&& inferred is None && existing is None ==> e.category is None
            }
            &&& (matched is None || (matched->0.voice_id is None && matched->0.category is None))
                ==> e.source == if existing is Some && existing->0.source
                == AllocationSource::Manual {
                AllocationSource::Manual
            } else {
                AllocationSource::AIInferred
            }
        }),
{
}

/// A speaker is to be confirmed where nothing is known of the confidence or it is negative, and among
/// other confidences exactly up to a bound: one that is higher than a sufficient one is sufficient.
pub proof fn law_higher_confidence_suffices(a: u32, b: u32)
    requires
        a <= b < 0x8000_0000,
    ensures
        unsure(None),
        unsure(Some(0x8000_0000)) && unsure(Some(0xFF80_0000)),
        0x8000_0000 + a <= 0xFF80_0000 ==> unsure(Some((0x8000_0000 + a) as u32)),
        0x8000_0000 + a > 0xFF80_0000 ==> !unsure(Some((0x8000_0000 + a) as u32)),
        !unsure(Some(a)) ==> !unsure(Some(b)),
        unsure(Some(0x3F19_9999)),
        !unsure(Some(0x3F19_999A)),
        !unsure(Some(FULL_CONFIDENCE)),
{
}

/// The aliases that a speaker has are kept, in their order, in front of the merged ones; each merged
/// alias that is not blank is then there, and what is added is a merged one.
pub proof fn law_aliases_are_added(aliases: Seq<Seq<char>>, more: Seq<Seq<char>>)
    ensures
        ({
            let r = aliases_with(aliases, more);
            &&& aliases.is_prefix_of(r)
            &&& forall|i: int| aliases.len() <= i < r.len() ==> more.contains(#[trigger] r[i])
                && !blank(r[i])
            &&& forall|k: int|
                0 <= k < more.len() && !blank(#[trigger] more[k]) ==> r.contains(more[k])
                    || r.contains(trimmed(more[k]))
            &&& forall|i: int|
                aliases.len() <= i < r.len() ==> !r.take(i).contains(trimmed(#[trigger] r[i]))
        }),
    decreases more.len(),
{
    let r = aliases_with(aliases, more);
    if more.len() > 0 {
        let front = more.drop_last();
        let before = aliases_with(aliases, front);
        let alias = more.last();
        law_aliases_are_added(aliases, front);
        assert(before.is_prefix_of(r)) by {
            assert(r.subrange(0, before.len() as int) =~= before);
        }
        assert(r.subrange(0, aliases.len() as int) =~= before.subrange(0, aliases.len() as int));
        assert forall|i: int| aliases.len() <= i < r.len() implies more.contains(#[trigger] r[i])
            && !blank(r[i]) && !r.take(i).contains(trimmed(r[i])) by {
            if i < before.len() {
                assert(r[i] == before[i]);
                assert(r.take(i) =~= before.take(i));
                let k = front.index_of(before[i]);
                assert(more[k] == r[i]);
            } else {
                assert(r.take(i) =~= before);
                assert(more[more.len() - 1] == r[i]);
            }
        }
        assert forall|k: int| 0 <= k < more.len() && !blank(#[trigger] more[k]) implies r.contains(
            more[k],
        ) || r.contains(trimmed(more[k])) by {
            if k < front.len() {
                assert(front[k] == more[k]);
                if before.contains(more[k]) {
                    let m = before.index_of(more[k]);
                    assert(r[m] == more[k]);
                } else {
                    let m = before.index_of(trimmed(more[k]));
                    assert(r[m] == trimmed(more[k]));
                }
            } else if before.contains(trimmed(alias)) {
                let m = before.index_of(trimmed(alias));
                assert(r[m] == trimmed(alias));
            } else {
                assert(r[r.len() - 1] == alias);
            }
        }
    } else {
        assert(r.subrange(0, aliases.len() as int) =~= aliases);
    }
}

/// The aliases of a speaker begin with those of the character where one is configured, else with the
/// merged ones, else with the table's; without merged ones they are just these.
pub proof fn law_aliases_come_from_the_character(
    matched: Option<CharacterView>,
    merged: Option<Seq<Seq<char>>>,
    existing: Option<EntryView>,
)
    ensures
        ({
            let r = aliases_for(matched, merged, existing);
            &&& matched matches Some(c) ==> c.aliases.is_prefix_of(r)
            &&& matched matches Some(c) ==> (merged matches Some(m) ==> r == aliases_with(
                c.aliases,
                m,
            ))
            &&& matched is None && merged is Some ==> merged->0.is_prefix_of(r)
            &&& merged is None && matched is Some ==> r == matched->0.aliases
            &&& merged is None && matched is None && existing is Some ==> r == existing->0.aliases
            &&& merged is None && matched is None && existing is None ==> r.len() == 0
        }),
{
    if let Some(m) = merged {
        let first = match matched {
            Some(c) => c.aliases,
            None => m,
        };
        law_aliases_are_added(first, m);
    } else if let Some(c) = matched {
        assert(c.aliases.subrange(0, c.aliases.len() as int) =~= c.aliases);
    }
}

/// What a tag writes of a speaker: it counts as made by hand and beyond doubt; the category of the tag
/// comes before that of the table, the name of the table before that of the tag.
pub proof fn law_tags_count_as_made_by_hand(
    tag: ManualTagView,
    existing: Option<EntryView>,
    voice: Seq<char>,
)
    ensures
        ({
            let e = manual_entry_of(tag, existing, voice);
            &&& e.source == AllocationSource::Manual
            &&& e.locked
            &&& !e.needs_review && !unsure(e.confidence)
            &&& e.voice_id == voice
            &&& e.reason == Some("手动标注"@)
            &&& e.volume is None && e.speed is None && e.pitch is None
            &&& tag.category is Some ==> e.category == tag.category
            &&& tag.category is None && existing is Some ==> e.category == existing->0.category
            &&& tag.category is None && existing is None ==> e.category is None
            &&& e.category matches Some(c) ==> e.category_label == Some(c.label_of())
            &&& e.category is None ==> e.category_label is None
            &&& existing matches Some(x) ==> e.character_name == x.character_name && e.aliases
                == x.aliases
            &&& existing is None ==> e.character_name == tag.name && e.aliases.len() == 0
        }),
{
}

/// A speaker is written exactly where it is to be recorded and the table has no locked entry for it;
/// what is written is the new entry. A speaker that is not to be recorded changes nothing.
pub proof fn law_speakers_are_written_unless_locked(
    recorded: bool,
    existing: Option<EntryView>,
    entry: EntryView,
)
    ensures
        write_for(recorded, existing, entry) is Leave <==> !recorded,
        write_for(recorded, existing, entry) is Keep <==> recorded && existing is Some
            && existing->0.locked,
        write_for(recorded, existing, entry) matches WriteView::Upsert(e) ==> e == entry,
{
}

/// An analysis records no garbled name, nothing without a table, and the crowd only where it is asked
/// to; it records every other speaker.
pub proof fn law_speakers_are_recorded(
    has_table: bool,
    garbled: bool,
    save_crowd: bool,
    name: Seq<char>,
)
    ensures
        recorded_by_analysis(has_table, garbled, save_crowd, name) ==> has_table && !garbled,
        has_table && !garbled && save_crowd ==> recorded_by_analysis(
            has_table,
            garbled,
            save_crowd,
            name,
        ),
        has_table && !garbled && !save_crowd ==> recorded_by_analysis(
            has_table,
            garbled,
            save_crowd,
            name,
        ) == !(holds_text(name, "群众"@) || holds_text(name, "缇や紬"@)),
{
}

/// An entry that is taken over is the only thing that changes: the table grows by one exactly where no
/// entry had its name, and only the first entry of that name is replaced.
pub proof fn law_one_entry_is_taken_over(
    entries: Seq<VoiceAllocationEntry>,
    entry: VoiceAllocationEntry,
    k: int,
)
    requires
        0 <= k < entries.len(),
    ensures
        with_entry(entries, entry)[k] == entries[k] || (entries[k].character_name@
            == entry.character_name@ && with_entry(entries, entry)[k] == entry && forall|m: int|
            0 <= m < k ==> (#[trigger] entries[m]).character_name@ != entry.character_name@),
        has_entry(entries, entry.character_name@) ==> with_entry(entries, entry).len()
            == entries.len(),
        !has_entry(entries, entry.character_name@) ==> with_entry(entries, entry) == entries.push(
            entry,
        ),
{
    lemma_entry_position(entries, entry.character_name@);
    if let Some(i) = entry_position(entries, entry.character_name@) {
        assert(entries[i].character_name@ == entry.character_name@);
    }
}

/// The entry that is found for a name is the first that has it, and none is found only where none has
/// it.
pub proof fn law_the_first_entry_of_a_name_is_found(
    entries: Seq<VoiceAllocationEntry>,
    name: Seq<char>,
)
    ensures
        match entry_position(entries, name) {
            Some(i) => 0 <= i < entries.len() && entries[i].character_name@ == name && forall|k: int|
                0 <= k < i ==> (#[trigger] entries[k]).character_name@ != name,
            None => !has_entry(entries, name),
        },
{
    lemma_entry_position(entries, name);
}

/// The names that are left over are those that were given a voice and have no entry, each once and
/// with the voice that it was given first.
pub proof fn law_leftovers_are_what_has_no_entry(
    entries: Seq<VoiceAllocationEntry>,
    voices: Seq<Pair>,
)
    ensures
        ({
            let r = unlisted(entries, voices);
            &&& forall|i: int|
                0 <= i < r.len() ==> voices.contains(#[trigger] r[i]) && !has_entry(entries, r[i].0)
            &&& forall|i: int, j: int| 0 <= i < j < r.len() ==> (#[trigger] r[i]).0 != (#[trigger] r[j]).0
            &&& forall|k: int|
                0 <= k < voices.len() && !has_entry(entries, (#[trigger] voices[k]).0) && (
                forall|m: int| 0 <= m < k ==> (#[trigger] voices[m]).0 != voices[k].0)
                    ==> r.contains(voices[k])
        }),
    decreases voices.len(),
{
    let r = unlisted(entries, voices);
    if voices.len() > 0 {
        let front = voices.drop_last();
        let before = unlisted(entries, front);
        let n = front.len() as int;
        law_leftovers_are_what_has_no_entry(entries, front);
        assert forall|i: int| 0 <= i < r.len() implies voices.contains(#[trigger] r[i])
            && !has_entry(entries, r[i].0) by {
            if i < before.len() {
                assert(r[i] == before[i]);
                let k = front.index_of(before[i]);
                assert(voices[k] == r[i]);
            } else {
                assert(voices[n] == r[i]);
            }
        }
        assert forall|k: int|
            0 <= k < voices.len() && !has_entry(entries, (#[trigger] voices[k]).0) && (forall|
                m: int,
            |
                0 <= m < k ==> (#[trigger] voices[m]).0 != voices[k].0) implies r.contains(
            voices[k],
        ) by {
            if k < n {
                assert(front[k] == voices[k]);
                assert forall|m: int| 0 <= m < k implies (#[trigger] front[m]).0 != front[k].0 by {
                    assert(front[m] == voices[m]);
                }
                let i = before.index_of(front[k]);
                assert(before.contains(front[k]));
                assert(r[i] == voices[k]);
            } else {
                if exists|i: int| 0 <= i < before.len() && (#[trigger] before[i]).0 == voices[k].0 {
                    let i = choose|i: int|
                        0 <= i < before.len() && (#[trigger] before[i]).0 == voices[k].0;
                    let m = front.index_of(before[i]);
                    assert(front.contains(before[i]));
                    assert(voices[m] == before[i]);
                }
                assert(r[r.len() - 1] == voices[k]);
            }
        }
    }
}

/// A name that is left over gets an entry with its voice and nothing else; it is locked, and counts as
/// found by an analysis.
pub proof fn law_leftovers_keep_their_voice(name: Seq<char>, voice: Seq<char>)
    ensures
        ({
            let e = leftover(name, voice);
            &&& e.character_name == name
            &&& e.voice_id == voice
            &&& e.locked
            &&& e.source == AllocationSource::AIInferred
            &&& e.aliases.len() == 0
            &&& e.category is None && e.category_label is None
            &&& e.volume is None && e.speed is None && e.pitch is None
            &&& e.confidence is None && e.reason is None && !e.needs_review
        }),
{
}

/// What becomes of a table tells the entry that is written, and optional values are there where they
/// are.
pub proof fn law_writes_tell_their_entry(
    entry: VoiceAllocationEntry,
    character: CharacterVoice,
    aliases: Vec<String>,
)
    ensures
        TableWrite::Upsert(entry)@ == WriteView::Upsert(entry@),
        TableWrite::Keep@ is Keep,
        TableWrite::Leave@ is Leave,
        opt_entry(Some(entry)) == Some(entry@),
        opt_entry(None) is None,
        opt_character(Some(character)) == Some(character@),
        opt_character(None) is None,
        opt_texts(Some(aliases)) == Some(texts(aliases@)),
        opt_texts(None) is None,
{
}

/// A name is that of the crowd exactly where the word for it stands somewhere in it.
pub proof fn law_the_crowd_is_named(a: Seq<char>, b: Seq<char>, name: Seq<char>)
    ensures
        crowd(a + "群众"@ + b),
        crowd(name) ==> exists|i: int| #[trigger] occurs_at(name, "群众"@, i),
        (forall|i: int| !#[trigger] occurs_at(name, "群众"@, i)) ==> !crowd(name),
{
    let all = a + "群众"@ + b;
    let n = a.len() as int;
    assert(all.subrange(n, n + "群众"@.len()) =~= "群众"@);
    lemma_holds_text(all, "群众"@, n);
    lemma_find_from(name, "群众"@, 0);
}

/// Tables that are listed in order follow each other by their file names, and a voice that is not
/// there counts as an empty one.
pub proof fn law_tables_are_listed_by_name(v: Seq<TableSummary>, i: int, j: int, o: Option<String>)
    ensures
        summaries_in_order(v) && 0 <= i < j < v.len() ==> text_le(
            v[i].file_name@,
            v[j].file_name@,
        ),
        o is None ==> text_or_empty(o).len() == 0,
        o matches Some(s) ==> text_or_empty(o) == s@,
{
}

} // verus!
