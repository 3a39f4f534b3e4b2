//! Finding out who speaks: tags in the text, saved analyses, and the analysis of a chapter.

use crate::ai::{
    character_views, copy_characters, AiDialogueConfig, CharacterView, CharacterVoice,
    EntryView, SpeakerResult, VoiceAllocationEntry, VoiceCategory,
};
use crate::batches::{batch_views, BatchData, BatchView};
use crate::patterns::{
    group_views, law_only_tags_are_read, law_tags_are_read, match_groups, tag_at_start, tag_text,
    TAG_PATTERN,
};
use crate::search::{
    find, find_from, first_chars, lemma_find_from, lemma_positions, lemma_positions_step, occurs_at,
    positions, replace_char, same, take_chars, with_char_replaced,
};
use crate::text::{
    blank, copy, from_chars, lemma_leading_unique, lemma_trimmed, texts, to_chars, trim,
    trim_start_class, trimmed, trimmed_start_of, white_space, CharClass,
};
use vstd::prelude::*;

verus! {

/// The category that a label names.
pub open spec fn labelled(label: Seq<char>) -> Option<VoiceCategory> {
    if label == "男童"@ || label == "男儿童"@ {
        Some(VoiceCategory::MaleChild)
    } else if label == "女童"@ || label == "女儿童"@ {
        Some(VoiceCategory::FemaleChild)
    } else if label == "少男"@ || label == "男少年"@ {
        Some(VoiceCategory::MaleTeen)
    } else if label == "少女"@ || label == "女少年"@ {
        Some(VoiceCategory::FemaleTeen)
    } else if label == "男青年"@ {
        Some(VoiceCategory::MaleYouth)
    } else if label == "女青年"@ {
        Some(VoiceCategory::FemaleYouth)
    } else if label == "男中年"@ {
        Some(VoiceCategory::MaleMiddleAge)
    } else if label == "女中年"@ {
        Some(VoiceCategory::FemaleMiddleAge)
    } else if label == "男老年"@ {
        Some(VoiceCategory::MaleElder)
    } else if label == "女老年"@ {
        Some(VoiceCategory::FemaleElder)
    } else {
        None
    }
}

/// The category that a label names.
pub fn voice_category_from_label(label: &str) -> (r: Option<VoiceCategory>)
    ensures
        r == labelled(label@),
{
    if same(label, "男童") || same(label, "男儿童") {
        Some(VoiceCategory::MaleChild)
    } else if same(label, "女童") || same(label, "女儿童") {
        Some(VoiceCategory::FemaleChild)
    } else if same(label, "少男") || same(label, "男少年") {
        Some(VoiceCategory::MaleTeen)
    } else if same(label, "少女") || same(label, "女少年") {
        Some(VoiceCategory::FemaleTeen)
    } else if same(label, "男青年") {
        Some(VoiceCategory::MaleYouth)
    } else if same(label, "女青年") {
        Some(VoiceCategory::FemaleYouth)
    } else if same(label, "男中年") {
        Some(VoiceCategory::MaleMiddleAge)
    } else if same(label, "女中年") {
        Some(VoiceCategory::FemaleMiddleAge)
    } else if same(label, "男老年") {
        Some(VoiceCategory::MaleElder)
    } else if same(label, "女老年") {
        Some(VoiceCategory::FemaleElder)
    } else {
        None
    }
}

/// The label of a category names that category.
pub proof fn law_labels_name_their_category(category: VoiceCategory)
    ensures
        labelled(category.label_of()) == Some(category),
{
    reveal_strlit("男童");
    reveal_strlit("男儿童");
    reveal_strlit("女童");
    reveal_strlit("女儿童");
    reveal_strlit("少男");
    reveal_strlit("男少年");
    reveal_strlit("少女");
    reveal_strlit("女少年");
    reveal_strlit("男青年");
    reveal_strlit("女青年");
    reveal_strlit("男中年");
    reveal_strlit("女中年");
    reveal_strlit("男老年");
    reveal_strlit("女老年");
    assert("男童"@[0] == '男' && "男童"@[1] == '童');
    assert("男儿童"@[0] == '男' && "男儿童"@[1] == '儿');
    assert("女童"@[0] == '女' && "女童"@[1] == '童');
    assert("女儿童"@[0] == '女' && "女儿童"@[1] == '儿');
    assert("少男"@[0] == '少' && "少男"@[1] == '男');
    assert("男少年"@[0] == '男' && "男少年"@[1] == '少');
    assert("少女"@[0] == '少' && "少女"@[1] == '女');
    assert("女少年"@[0] == '女' && "女少年"@[1] == '少');
    assert("男青年"@[0] == '男' && "男青年"@[1] == '青');
    assert("女青年"@[0] == '女' && "女青年"@[1] == '青');
    assert("男中年"@[0] == '男' && "男中年"@[1] == '中');
    assert("女中年"@[0] == '女' && "女中年"@[1] == '中');
    assert("男老年"@[0] == '男' && "男老年"@[1] == '老');
    assert("女老年"@[0] == '女' && "女老年"@[1] == '老');
}

/// A speaker tag: the name, the category that its label names, and the whole tag.
#[verifier::ext_equal]
pub struct ManualTagView {
    pub name: Seq<char>,
    pub category: Option<VoiceCategory>,
    pub tag: Seq<char>,
}

/// The speaker tag that a text begins with, behind white space; none where its name is blank.
pub open spec fn manual_tag(text: Seq<char>) -> Option<ManualTagView> {
    match tag_at_start(trimmed_start_of(text, CharClass::Space)) {
        Some(t) if trimmed(t.name).len() > 0 => Some(
            ManualTagView {
                name: trimmed(t.name),
                category: match t.label {
                    Some(l) => labelled(trimmed(l)),
                    None => None,
                },
                tag: t.full,
            },
        ),
        _ => None,
    }
}

/// A speaker tag at the start of a text.
#[derive(Debug)]
pub struct ManualTag {
    pub name: String,
    pub category: Option<VoiceCategory>,
    pub tag: String,
}

impl View for ManualTag {
    type V = ManualTagView;

    open spec fn view(&self) -> ManualTagView {
        ManualTagView { name: self.name@, category: self.category, tag: self.tag@ }
    }
}

/// The speaker tag that a text begins with.
pub fn parse_manual_speaker_tag(text: &str) -> (r: Option<ManualTag>)
    ensures
        r matches Some(t) ==> manual_tag(text@) == Some(t@),
        r is None ==> manual_tag(text@) is None,
{
    let start = trim_start_class(text, CharClass::Space);
    let groups = match match_groups(TAG_PATTERN, start.as_str()) {
        Some(g) => g,
        None => return None,
    };
    let ghost t = tag_at_start(start@)->0;
    let ghost views = group_views(groups@);
    assert(views.len() == 3);
    assert(views[0] == Some(t.full) && views[1] == Some(t.name) && views[2] == t.label);
    let tag = match &groups[0] {
        Some(g) => g.clone(),
        None => return None,
    };
    let name = match &groups[1] {
        Some(g) => trim(g.as_str()),
        None => return None,
    };
    if name.as_str().unicode_len() == 0 {
        return None;
    }
    let category = match &groups[2] {
        Some(l) => voice_category_from_label(trim(l.as_str()).as_str()),
        None => None,
    };
    Some(ManualTag { name, category, tag })
}

/// `max` characters of a text about the first place at which `center` stands in it.
pub open spec fn window(text: Seq<char>, center: Seq<char>, max: nat) -> Seq<char> {
    let at = match find_from(text, center, 0) {
        Some(i) => i,
        None => 0,
    };
    let start = if at >= max / 2 {
        at - max / 2
    } else {
        0
    };
    if max == 0 {
        seq![]
    } else if text.len() <= max {
        text
    } else if start + max <= text.len() {
        text.subrange(start, (start + max) as int)
    } else {
        text.skip(start)
    }
}

/// `max_chars` characters of a text about the first place at which `center_text` stands in it.
pub fn window_chars(text: &str, center_text: &str, max_chars: usize) -> (r: String)
    ensures
        r@ == window(text@, center_text@, max_chars as nat),
{
    if max_chars == 0 {
        let r = String::new();
        assert(r@ =~= seq![]);
        return r;
    }
    let chars = to_chars(text);
    let n = chars.len();
    if n <= max_chars {
        return copy(text);
    }
    let pattern = to_chars(center_text);
    proof {
        lemma_find_from(text@, center_text@, 0);
    }
    let center: usize = match find(&chars, &pattern) {
        Some(i) => i,
        None => 0,
    };
    let half = max_chars / 2;
    let start: usize = if center >= half { center - half } else { 0 };
    if n - start >= max_chars {
        from_chars(&chars, start, start + max_chars)
    } else {
        let r = from_chars(&chars, start, n);
        assert(r@ =~= text@.skip(start as int));
        r
    }
}

/// What is shown of a chapter to find the speaker of a quotation.
pub open spec fn context_of(content: Seq<char>, dialogue: Seq<char>, max: nat) -> Seq<char> {
    "【当前重点对话】\n"@ + dialogue + "\n\n【对话附近上下文】\n"@ + window(content, dialogue, max)
}

/// What is shown of a chapter to find the speaker of a quotation.
pub fn speaker_context(chapter_content: &str, dialogue: &str, max_chars: usize) -> (r: String)
    ensures
        r@ == context_of(chapter_content@, dialogue@, max_chars as nat),
{
    let local = window_chars(chapter_content, dialogue, max_chars);
    let mut r = copy("【当前重点对话】\n");
    r.append(dialogue);
    r.append("\n\n【对话附近上下文】\n");
    r.append(local.as_str());
    r
}

/// A text in one line of at most 40 characters, and dots where it is longer.
pub open spec fn shown(text: Seq<char>) -> Seq<char> {
    with_char_replaced(
        if text.len() > 40 {
            first_chars(text, 40) + "..."@
        } else {
            text
        },
        '\n',
        ' ',
    )
}

/// A text in one line of at most 40 characters, and dots where it is longer.
pub fn trim_for_log(text: &str) -> (r: String)
    ensures
        r@ == shown(text@),
{
    let mut value = take_chars(text, 40);
    if text.unicode_len() > 40 {
        value.append("...");
    }
    replace_char(value.as_str(), '\n', ' ')
}

/// An entry of the table of voices, with which of its names look garbled.
#[derive(Debug)]
pub struct ScreenedEntry {
    pub entry: VoiceAllocationEntry,
    pub garbled: bool,
    pub garbled_aliases: Vec<bool>,
}

/// Whether the flag with that index is set.
pub open spec fn flagged(flags: Seq<bool>, i: int) -> bool {
    0 <= i < flags.len() && flags[i]
}

/// The aliases that do not look garbled.
pub open spec fn clean_aliases(aliases: Seq<Seq<char>>, flags: Seq<bool>) -> Seq<Seq<char>>
    decreases aliases.len(),
{
    if aliases.len() == 0 {
        seq![]
    } else if flagged(flags, aliases.len() - 1) {
        clean_aliases(aliases.drop_last(), flags)
    } else {
        clean_aliases(aliases.drop_last(), flags).push(aliases.last())
    }
}

/// Whether a character has the name.
pub open spec fn has_name(known: Seq<CharacterView>, name: Seq<char>) -> bool {
    exists|i: int| 0 <= i < known.len() && (#[trigger] known[i]).name == name
}

/// The character that an entry stands for.
pub open spec fn entry_character(entry: EntryView, flags: Seq<bool>) -> CharacterView {
    CharacterView {
        name: entry.character_name,
        aliases: clean_aliases(entry.aliases, flags),
        gender: None,
        age: None,
        category: entry.category,
        voice_id: if entry.voice_id.len() == 0 {
            None
        } else {
            Some(entry.voice_id)
        },
        enabled: true,
    }
}

/// The characters, with those of the entries that do not look garbled and have a name of their
/// own.
pub open spec fn known_with(
    known: Seq<CharacterView>,
    entries: Seq<ScreenedEntry>,
) -> Seq<CharacterView>
    decreases entries.len(),
{
    if entries.len() == 0 {
        known
    } else {
        let before = known_with(known, entries.drop_last());
        let last = entries.last();
        if last.garbled || has_name(before, last.entry@.character_name) {
            before
        } else {
            before.push(entry_character(last.entry@, last.garbled_aliases@))
        }
    }
}

fn is_name_known(known: &Vec<CharacterVoice>, name: &str) -> (b: bool)
    ensures
        b == has_name(character_views(known@), name@),
{
    let ghost views = character_views(known@);
    let mut i: usize = 0;
    while i < known.len()
        invariant
            i <= known@.len(),
            views == character_views(known@),
            forall|k: int| 0 <= k < i ==> (#[trigger] views[k]).name != name@,
        decreases known@.len() - i,
    {
        if same(known[i].name.as_str(), name) {
            assert(views[i as int].name == name@);
            return true;
        }
        i += 1;
    }
    false
}

fn drop_garbled(aliases: &Vec<String>, flags: &Vec<bool>) -> (r: Vec<String>)
    ensures
        texts(r@) == clean_aliases(texts(aliases@), flags@),
{
    let ghost views = texts(aliases@);
    let mut r: Vec<String> = Vec::new();
    let mut i: usize = 0;
    assert(views.take(0) =~= seq![]);
    assert(texts(r@) =~= seq![]);
    while i < aliases.len()
        invariant
            i <= aliases@.len(),
            views == texts(aliases@),
            texts(r@) == clean_aliases(views.take(i as int), flags@),
        decreases aliases@.len() - i,
    {
        let ghost before = texts(r@);
        proof {
            assert(views.take(i + 1).drop_last() =~= views.take(i as int));
            assert(views.take(i + 1).last() == views[i as int]);
        }
        if !(i < flags.len() && flags[i]) {
            r.push(aliases[i].clone());
            assert(texts(r@) =~= before.push(views[i as int]));
        }
        i += 1;
    }
    assert(views.take(i as int) =~= views);
    r
}

/// The characters that may speak: those of the configuration, and those of the table of voices.
pub fn known_characters_from_table(
    config: &AiDialogueConfig,
    entries: &Vec<ScreenedEntry>,
) -> (r: Vec<CharacterVoice>)
    ensures
        character_views(r@) == known_with(config@.characters, entries@),
{
    let mut known = copy_characters(&config.characters);
    let mut i: usize = 0;
    assert(entries@.take(0) =~= seq![]);
    while i < entries.len()
        invariant
            i <= entries@.len(),
            character_views(known@) == known_with(
                config@.characters,
                entries@.take(i as int),
            ),
        decreases entries@.len() - i,
    {
        let ghost before = character_views(known@);
        let screened = &entries[i];
        proof {
            assert(entries@.take(i + 1).drop_last() =~= entries@.take(i as int));
            assert(entries@.take(i + 1).last() == *screened);
        }
        let entry = &screened.entry;
        if !screened.garbled && !is_name_known(&known, entry.character_name.as_str()) {
            let character = CharacterVoice {
                name: entry.character_name.clone(),
                aliases: drop_garbled(&entry.aliases, &screened.garbled_aliases),
                gender: None,
                age: None,
                category: entry.category,
                voice_id: if entry.voice_id.as_str().unicode_len() == 0 {
                    None
                } else {
                    Some(entry.voice_id.clone())
                },
                enabled: true,
            };
            assert(character@ =~= entry_character(entry@, screened.garbled_aliases@));
            known.push(character);
            assert(character_views(known@) =~= before.push(character@));
        }
        i += 1;
    }
    assert(entries@.take(i as int) =~= entries@);
    known
}

/// Of a character that was known already, nothing is changed by the table of voices; and no two
/// characters that the table adds have one name.
pub proof fn law_known_characters_keep_their_place(
    known: Seq<CharacterView>,
    entries: Seq<ScreenedEntry>,
)
    ensures
        known.is_prefix_of(known_with(known, entries)),
        forall|i: int, j: int|
            known.len() <= j < known_with(known, entries).len() && 0 <= i < j ==> (
            #[trigger] known_with(known, entries)[i]).name != (#[trigger] known_with(
                known,
                entries,
            )[j]).name,
    decreases entries.len(),
{
    let all = known_with(known, entries);
    if entries.len() == 0 {
        assert(all.subrange(0, known.len() as int) =~= known);
    } else {
        let before = known_with(known, entries.drop_last());
        law_known_characters_keep_their_place(known, entries.drop_last());
        assert(before.subrange(0, known.len() as int) == known);
        assert(all.subrange(0, known.len() as int) =~= known) by {
            assert forall|i: int| 0 <= i < known.len() implies all[i] == known[i] by {
                assert(before.subrange(0, known.len() as int)[i] == before[i]);
                assert(all[i] == before[i]);
            }
        }
        assert forall|i: int, j: int| known.len() <= j < all.len() && 0 <= i < j implies (
        #[trigger] all[i]).name != (#[trigger] all[j]).name by {
            assert(all[i] == before[i]);
            if j < before.len() {
                assert(all[j] == before[j]);
            } else {
                assert(before[i].name != all[j].name);
            }
        }
    }
}

/// A quotation of a chapter whose speaker is asked for.
#[derive(Debug)]
pub struct ChapterDialogueInput {
    pub index: usize,
    pub text: String,
}

/// A quotation as a value: the index of its batch, and its text.
pub type InputView = (usize, Seq<char>);

/// The views of quotations.
pub open spec fn input_views(v: Seq<ChapterDialogueInput>) -> Seq<InputView> {
    Seq::new(v.len(), |i: int| (v[i].index, v[i].text@))
}

/// The speaker of the quotation with that index.
#[derive(Debug)]
pub struct ChapterSpeaker {
    pub index: usize,
    pub speaker: SpeakerResult,
}

/// Whether the speaker of a batch is still to be found: a quotation without a tag and without a
/// speaker.
pub open spec fn needs_speaker(batch: BatchView, speaker: Option<SpeakerResult>) -> bool {
    batch.is_dialogue && manual_tag(batch.text) is None && speaker is None
}

/// The quotations among the first `n` batches whose speaker is still to be found.
pub open spec fn open_inputs(
    batches: Seq<BatchView>,
    speakers: Seq<Option<SpeakerResult>>,
    n: nat,
) -> Seq<InputView>
    decreases n,
{
    if n == 0 {
        seq![]
    } else {
        let before = open_inputs(batches, speakers, (n - 1) as nat);
        if needs_speaker(batches[n - 1], speakers[n - 1]) {
            before.push(((n - 1) as usize, batches[n - 1].text))
        } else {
            before
        }
    }
}

/// The quotations whose speaker is still to be found.
pub fn dialogue_inputs(
    batches: &Vec<BatchData>,
    speakers: &Vec<Option<SpeakerResult>>,
) -> (r: Vec<ChapterDialogueInput>)
    requires
        speakers@.len() == batches@.len(),
    ensures
        input_views(r@) == open_inputs(batch_views(batches@), speakers@, batches@.len()),
{
    let ghost views = batch_views(batches@);
    let mut r: Vec<ChapterDialogueInput> = Vec::new();
    let mut i: usize = 0;
    assert(input_views(r@) =~= seq![]);
    while i < batches.len()
        invariant
            i <= batches@.len(),
            speakers@.len() == batches@.len(),
            views == batch_views(batches@),
            input_views(r@) == open_inputs(views, speakers@, i as nat),
        decreases batches@.len() - i,
    {
        let ghost before = input_views(r@);
        let batch = &batches[i];
        assert(views[i as int] == batch@);
        if batch.is_dialogue && parse_manual_speaker_tag(batch.text.as_str()).is_none()
            && speakers[i].is_none() {
            r.push(ChapterDialogueInput { index: i, text: batch.text.clone() });
            assert(input_views(r@) =~= before.push((i, batch@.text)));
        }
        i += 1;
    }
    r
}

/// Whether the index is that of one of the quotations.
pub open spec fn asked_for(inputs: Seq<InputView>, index: usize) -> bool {
    exists|i: int| 0 <= i < inputs.len() && (#[trigger] inputs[i]).0 == index
}

/// The speakers, with what an answer says of the quotations that were asked for.
pub open spec fn accepted(
    speakers: Seq<Option<SpeakerResult>>,
    inputs: Seq<InputView>,
    results: Seq<ChapterSpeaker>,
) -> Seq<Option<SpeakerResult>>
    decreases results.len(),
{
    if results.len() == 0 {
        speakers
    } else {
        let before = accepted(speakers, inputs, results.drop_last());
        let last = results.last();
        if asked_for(inputs, last.index) {
            before.update(last.index as int, Some(last.speaker))
        } else {
            before
        }
    }
}

fn is_asked_for(inputs: &Vec<ChapterDialogueInput>, index: usize) -> (b: bool)
    ensures
        b == asked_for(input_views(inputs@), index),
{
    let ghost views = input_views(inputs@);
    let mut i: usize = 0;
    while i < inputs.len()
        invariant
            i <= inputs@.len(),
            views == input_views(inputs@),
            forall|k: int| 0 <= k < i ==> (#[trigger] views[k]).0 != index,
        decreases inputs@.len() - i,
    {
        if inputs[i].index == index {
            assert(views[i as int].0 == index);
            return true;
        }
        i += 1;
    }
    false
}

/// Whether every quotation has the index of a batch.
pub open spec fn inputs_in_range(inputs: Seq<InputView>, n: nat) -> bool {
    forall|i: int| 0 <= i < inputs.len() ==> (#[trigger] inputs[i]).0 < n
}

fn accept(
    speakers: &mut Vec<Option<SpeakerResult>>,
    inputs: &Vec<ChapterDialogueInput>,
    results: &Vec<ChapterSpeaker>,
)
    requires
        inputs_in_range(input_views(inputs@), old(speakers)@.len()),
    ensures
        final(speakers)@ == accepted(old(speakers)@, input_views(inputs@), results@),
        final(speakers)@.len() == old(speakers)@.len(),
{
    let ghost first = speakers@;
    let ghost views = input_views(inputs@);
    let mut i: usize = 0;
    assert(results@.take(0) =~= seq![]);
    while i < results.len()
        invariant
            i <= results@.len(),
            views == input_views(inputs@),
            speakers@.len() == first.len(),
            inputs_in_range(views, first.len()),
            speakers@ == accepted(first, views, results@.take(i as int)),
        decreases results@.len() - i,
    {
        let result = &results[i];
        proof {
            assert(results@.take(i + 1).drop_last() =~= results@.take(i as int));
            assert(results@.take(i + 1).last() == *result);
        }
        if is_asked_for(inputs, result.index) {
            speakers.set(result.index, Some(result.speaker.clone()));
        }
        i += 1;
    }
    assert(results@.take(i as int) =~= results@);
}

/// How many of the first `n` batches have a speaker.
pub open spec fn found_count(speakers: Seq<Option<SpeakerResult>>, n: nat) -> nat
    decreases n,
{
    if n == 0 {
        0
    } else {
        found_count(speakers, (n - 1) as nat) + if speakers[n - 1] is Some {
            1nat
        } else {
            0nat
        }
    }
}

/// Whether a batch counts as one whose speaker was to be found.
pub open spec fn counts(
    batch: BatchView,
    speaker: Option<SpeakerResult>,
    inputs: Seq<InputView>,
    index: usize,
) -> bool {
    batch.is_dialogue && manual_tag(batch.text) is None && (speaker is Some || asked_for(
        inputs,
        index,
    ))
}

/// How many of the first `n` batches count.
pub open spec fn counted(
    batches: Seq<BatchView>,
    speakers: Seq<Option<SpeakerResult>>,
    inputs: Seq<InputView>,
    n: nat,
) -> nat
    decreases n,
{
    if n == 0 {
        0
    } else {
        counted(batches, speakers, inputs, (n - 1) as nat) + if counts(
            batches[n - 1],
            speakers[n - 1],
            inputs,
            (n - 1) as usize,
        ) {
            1nat
        } else {
            0nat
        }
    }
}

/// Whether less than four fifths of the speakers that were to be found are known.
pub open spec fn too_few(
    batches: Seq<BatchView>,
    speakers: Seq<Option<SpeakerResult>>,
    inputs: Seq<InputView>,
) -> bool {
    let n = counted(batches, speakers, inputs, batches.len());
    5 * found_count(speakers, speakers.len()) < 4 * (if n > 0 {
        n
    } else {
        1
    })
}

/// Whether less than four fifths of the speakers that were to be found are known.
fn are_too_few(
    batches: &Vec<BatchData>,
    speakers: &Vec<Option<SpeakerResult>>,
    inputs: &Vec<ChapterDialogueInput>,
) -> (b: bool)
    requires
        speakers@.len() == batches@.len(),
    ensures
        b == too_few(batch_views(batches@), speakers@, input_views(inputs@)),
{
    let ghost views = batch_views(batches@);
    let ghost asked = input_views(inputs@);
    let mut hits: usize = 0;
    let mut total: usize = 0;
    let mut i: usize = 0;
    while i < batches.len()
        invariant
            i <= batches@.len(),
            speakers@.len() == batches@.len(),
            views == batch_views(batches@),
            asked == input_views(inputs@),
            hits == found_count(speakers@, i as nat),
            total == counted(views, speakers@, asked, i as nat),
            hits <= i,
            total <= i,
        decreases batches@.len() - i,
    {
        let batch = &batches[i];
        assert(views[i as int] == batch@);
        let has = speakers[i].is_some();
        if has {
            hits += 1;
        }
        if batch.is_dialogue && parse_manual_speaker_tag(batch.text.as_str()).is_none() && (has
            || is_asked_for(inputs, i)) {
            total += 1;
        }
        i += 1;
    }
    let least: u128 = if total > 0 { total as u128 } else { 1 };
    (hits as u128) * 5 < least * 4
}

/// The quotations that have no speaker yet.
pub open spec fn unanswered(
    inputs: Seq<InputView>,
    speakers: Seq<Option<SpeakerResult>>,
) -> Seq<InputView>
    decreases inputs.len(),
{
    if inputs.len() == 0 {
        seq![]
    } else {
        let before = unanswered(inputs.drop_last(), speakers);
        if speakers[inputs.last().0 as int] is None {
            before.push(inputs.last())
        } else {
            before
        }
    }
}

fn find_unanswered(
    inputs: &Vec<ChapterDialogueInput>,
    speakers: &Vec<Option<SpeakerResult>>,
) -> (r: Vec<ChapterDialogueInput>)
    requires
        inputs_in_range(input_views(inputs@), speakers@.len()),
    ensures
        input_views(r@) == unanswered(input_views(inputs@), speakers@),
        inputs_in_range(input_views(r@), speakers@.len()),
{
    let ghost views = input_views(inputs@);
    let mut r: Vec<ChapterDialogueInput> = Vec::new();
    let mut i: usize = 0;
    assert(views.take(0) =~= seq![]);
    assert(input_views(r@) =~= seq![]);
    while i < inputs.len()
        invariant
            i <= inputs@.len(),
            views == input_views(inputs@),
            inputs_in_range(views, speakers@.len()),
            inputs_in_range(input_views(r@), speakers@.len()),
            input_views(r@) == unanswered(views.take(i as int), speakers@),
        decreases inputs@.len() - i,
    {
        let ghost before = input_views(r@);
        let input = &inputs[i];
        proof {
            assert(views.take(i + 1).drop_last() =~= views.take(i as int));
            assert(views.take(i + 1).last() == views[i as int]);
            assert(views[i as int].0 == input.index);
        }
        if speakers[input.index].is_none() {
            r.push(ChapterDialogueInput { index: input.index, text: input.text.clone() });
            assert(input_views(r@) =~= before.push(views[i as int]));
        }
        i += 1;
    }
    assert(views.take(i as int) =~= views);
    r
}

/// How many quotations are asked for at a time once the whole chapter has been asked for.
pub const CHUNK: usize = 10;

/// The analysis of a chapter: the quotations to find the speakers of, the speakers found, whether
/// the whole chapter was asked for, and then the quotations to ask for in chunks and how many of
/// them were asked for.
#[derive(Debug)]
pub struct ChapterAnalysis {
    pub inputs: Vec<ChapterDialogueInput>,
    pub speakers: Vec<Option<SpeakerResult>>,
    pub asked: bool,
    pub missing: Vec<ChapterDialogueInput>,
    pub next: usize,
}

/// The analysis of a chapter as a value.
#[verifier::ext_equal]
pub struct AnalysisView {
    pub inputs: Seq<InputView>,
    pub speakers: Seq<Option<SpeakerResult>>,
    pub asked: bool,
    pub missing: Seq<InputView>,
    pub next: nat,
}

impl View for ChapterAnalysis {
    type V = AnalysisView;

    open spec fn view(&self) -> AnalysisView {
        AnalysisView {
            inputs: input_views(self.inputs@),
            speakers: self.speakers@,
            asked: self.asked,
            missing: input_views(self.missing@),
            next: self.next as nat,
        }
    }
}

impl AnalysisView {
    /// The quotations have indices of batches, and no more were asked for than there are.
    pub open spec fn valid(self) -> bool {
        &&& inputs_in_range(self.inputs, self.speakers.len())
        &&& inputs_in_range(self.missing, self.speakers.len())
        &&& self.next <= self.missing.len()
    }

    /// The quotations to ask for next; none where the analysis is complete.
    pub open spec fn request(self) -> Option<Seq<InputView>> {
        if self.inputs.len() == 0 {
            None
        } else if !self.asked {
            Some(self.inputs)
        } else if self.next >= self.missing.len() {
            None
        } else if self.missing.len() - self.next <= CHUNK {
            Some(self.missing.skip(self.next as int))
        } else {
            Some(self.missing.subrange(self.next as int, self.next + CHUNK))
        }
    }

    /// The analysis after an answer to its request: what the answer says of the quotations is
    /// taken over. After the answer for the whole chapter the quotations that are left are asked
    /// for in chunks where too few were found.
    pub open spec fn answered(
        self,
        batches: Seq<BatchView>,
        results: Seq<ChapterSpeaker>,
    ) -> AnalysisView {
        let asked = self.request()->0;
        let speakers = accepted(self.speakers, asked, results);
        if !self.asked {
            AnalysisView {
                speakers,
                asked: true,
                missing: if too_few(batches, speakers, self.inputs) {
                    unanswered(self.inputs, speakers)
                } else {
                    seq![]
                },
                next: 0,
                ..self
            }
        } else {
            AnalysisView { speakers, next: self.next + asked.len(), ..self }
        }
    }
}

/// The analysis of a chapter at its start. Nothing is asked for where the analysis of chapters is
/// not in use.
pub open spec fn analysis_start(
    in_use: bool,
    batches: Seq<BatchView>,
    speakers: Seq<Option<SpeakerResult>>,
) -> AnalysisView {
    AnalysisView {
        inputs: if in_use {
            open_inputs(batches, speakers, batches.len())
        } else {
            seq![]
        },
        speakers,
        asked: false,
        missing: seq![],
        next: 0,
    }
}

proof fn lemma_open_inputs(
    batches: Seq<BatchView>,
    speakers: Seq<Option<SpeakerResult>>,
    n: nat,
)
    requires
        n <= batches.len() <= usize::MAX,
        speakers.len() == batches.len(),
    ensures
        forall|i: int|
            0 <= i < open_inputs(batches, speakers, n).len() ==> {
                let index = (#[trigger] open_inputs(batches, speakers, n)[i]).0;
                index < n && needs_speaker(batches[index as int], speakers[index as int])
            },
    decreases n,
{
    if n > 0 {
        let all = open_inputs(batches, speakers, n);
        let before = open_inputs(batches, speakers, (n - 1) as nat);
        lemma_open_inputs(batches, speakers, (n - 1) as nat);
        assert forall|i: int| 0 <= i < all.len() implies ({
            let index = (#[trigger] all[i]).0;
            index < n && needs_speaker(batches[index as int], speakers[index as int])
        }) by {
            if i < before.len() {
                assert(all[i] == before[i]);
            }
        }
    }
}

impl ChapterAnalysis {
    /// Starts the analysis of a chapter, with the speakers that are known already.
    pub fn start(
        in_use: bool,
        batches: &Vec<BatchData>,
        speakers: Vec<Option<SpeakerResult>>,
    ) -> (r: ChapterAnalysis)
        requires
            speakers@.len() == batches@.len(),
        ensures
            r@ == analysis_start(in_use, batch_views(batches@), speakers@),
            r@.valid(),
    {
        let inputs = if in_use {
            dialogue_inputs(batches, &speakers)
        } else {
            Vec::new()
        };
        let r = ChapterAnalysis { inputs, speakers, asked: false, missing: Vec::new(), next: 0 };
        proof {
            let n = batches.len();
            lemma_open_inputs(batch_views(batches@), r.speakers@, batches@.len());
            assert(input_views(r.missing@) =~= seq![]);
            if !in_use {
                assert(input_views(r.inputs@) =~= seq![]);
            }
        }
        r
    }

    /// The quotations to ask for next; none where the analysis is complete.
    pub fn request(&self) -> (r: Option<Vec<ChapterDialogueInput>>)
        requires
            self@.valid(),
        ensures
            r matches Some(v) ==> self@.request() == Some(input_views(v@)) && v@.len() > 0
                && inputs_in_range(input_views(v@), self@.speakers.len()),
            r is None ==> self@.request() is None,
    {
        if self.inputs.len() == 0 {
            return None;
        }
        let whole = !self.asked;
        let list = if whole { &self.inputs } else { &self.missing };
        let from: usize = if whole { 0 } else { self.next };
        let n = list.len();
        if from >= n {
            return None;
        }
        let to: usize = if whole || n - from <= CHUNK { n } else { from + CHUNK };
        let ghost views = input_views(list@);
        let mut r: Vec<ChapterDialogueInput> = Vec::new();
        let mut i: usize = from;
        assert(input_views(r@) =~= views.subrange(from as int, from as int));
        while i < to
            invariant
                from <= i <= to <= list@.len(),
                views == input_views(list@),
                input_views(r@) == views.subrange(from as int, i as int),
            decreases to - i,
        {
            let ghost before = input_views(r@);
            r.push(ChapterDialogueInput { index: list[i].index, text: list[i].text.clone() });
            proof {
                assert(input_views(r@) =~= before.push(views[i as int]));
                assert(input_views(r@) =~= views.subrange(from as int, i + 1));
            }
            i += 1;
        }
        proof {
            assert(input_views(r@).len() == r@.len());
            if whole {
                assert(views.subrange(0, n as int) =~= views);
            } else if n - from <= CHUNK {
                assert(views.subrange(from as int, n as int) =~= views.skip(from as int));
            }
            assert forall|k: int| 0 <= k < r@.len() implies (#[trigger] input_views(r@)[k]).0
                < self@.speakers.len() by {
                assert(input_views(r@)[k] == views[from + k]);
            }
        }
        Some(r)
    }

    /// Takes over an answer to the request; one that failed says nothing.
    pub fn answer(&mut self, batches: &Vec<BatchData>, results: &Vec<ChapterSpeaker>)
        requires
            old(self)@.valid(),
            old(self)@.request() is Some,
            old(self)@.speakers.len() == batches@.len(),
        ensures
            final(self)@ == old(self)@.answered(batch_views(batches@), results@),
            final(self)@.valid(),
            final(self)@.speakers.len() == batches@.len(),
    {
        let asked = match self.request() {
            Some(v) => v,
            None => return,
        };
        let n = self.missing.len();
        accept(&mut self.speakers, &asked, results);
        if !self.asked {
            self.asked = true;
            self.next = 0;
            self.missing = if are_too_few(batches, &self.speakers, &self.inputs) {
                find_unanswered(&self.inputs, &self.speakers)
            } else {
                Vec::new()
            };
            proof {
                if !too_few(batch_views(batches@), self.speakers@, input_views(self.inputs@)) {
                    assert(input_views(self.missing@) =~= seq![]);
                }
            }
        } else {
            assert(input_views(asked@).len() == asked@.len());
            self.next += asked.len();
        }
    }
}

/// An answer changes nothing of a batch that was not asked for; in particular of one whose speaker
/// was known when the analysis started, that is no quotation, or that has a tag.
pub proof fn law_answers_keep_other_batches(
    in_use: bool,
    batches: Seq<BatchView>,
    speakers: Seq<Option<SpeakerResult>>,
    results: Seq<ChapterSpeaker>,
    i: int,
)
    requires
        batches.len() <= usize::MAX,
        speakers.len() == batches.len(),
        0 <= i < batches.len(),
        !needs_speaker(batches[i], speakers[i]),
        analysis_start(in_use, batches, speakers).request() is Some,
    ensures
        analysis_start(in_use, batches, speakers).answered(batches, results).speakers[i]
            == speakers[i],
{
    let start = analysis_start(in_use, batches, speakers);
    lemma_open_inputs(batches, speakers, batches.len());
    assert(!asked_for(start.inputs, i as usize)) by {
        if asked_for(start.inputs, i as usize) {
            let k = choose|k: int|
                0 <= k < start.inputs.len() && (#[trigger] start.inputs[k]).0 == i as usize;
            assert(needs_speaker(batches[i], speakers[i]));
        }
    }
    lemma_accepted_keeps(speakers, start.inputs, results, i);
}

/// What an answer says changes no batch that was not asked for.
pub proof fn lemma_accepted_keeps(
    speakers: Seq<Option<SpeakerResult>>,
    inputs: Seq<InputView>,
    results: Seq<ChapterSpeaker>,
    i: int,
)
    requires
        0 <= i < speakers.len() <= usize::MAX,
        !asked_for(inputs, i as usize),
        inputs_in_range(inputs, speakers.len()),
    ensures
        accepted(speakers, inputs, results).len() == speakers.len(),
        accepted(speakers, inputs, results)[i] == speakers[i],
    decreases results.len(),
{
    if results.len() > 0 {
        lemma_accepted_keeps(speakers, inputs, results.drop_last(), i);
    }
}

/// Every answer brings the analysis nearer to its end: first the whole chapter has been asked for,
/// and from then on fewer quotations are left to ask for.
pub proof fn law_analysis_comes_to_an_end(
    a: AnalysisView,
    batches: Seq<BatchView>,
    results: Seq<ChapterSpeaker>,
)
    requires
        a.valid(),
        a.request() is Some,
    ensures
        a.answered(batches, results).asked,
        a.asked ==> a.answered(batches, results).missing == a.missing && a.next < a.answered(
            batches,
            results,
        ).next <= a.missing.len(),
{
}

/// Whether every character is white space.
pub open spec fn spaces(s: Seq<char>) -> bool {
    forall|i: int| 0 <= i < s.len() ==> white_space(#[trigger] s[i])
}

/// A text that begins with a tag, behind white space, is spoken by the one that the tag names, as the
/// kind of voice that its label names, where it has one. A tag whose name is blank is none.
pub proof fn law_tags_name_the_speaker(
    lead: Seq<char>,
    name: Seq<char>,
    opening: char,
    label: Seq<char>,
    closing: char,
    rest: Seq<char>,
)
    requires
        spaces(lead),
        tag_text(name, 50),
        tag_text(label, 10),
        opening == '(' || opening == '（',
        closing == ')' || closing == '）',
    ensures
        ({
            let plain = seq!['<', '<'] + name + seq!['>', '>'];
            manual_tag(lead + (plain + rest)) == if blank(name) {
                None
            } else {
                Some(ManualTagView { name: trimmed(name), category: None, tag: plain })
            }
        }),
        ({
            let full = seq!['<', '<'] + name + seq![opening] + label + seq![closing, '>', '>'];
            manual_tag(lead + (full + rest)) == if blank(name) {
                None
            } else {
                Some(
                    ManualTagView {
                        name: trimmed(name),
                        category: labelled(trimmed(label)),
                        tag: full,
                    },
                )
            }
        }),
{
    let plain = seq!['<', '<'] + name + seq!['>', '>'];
    let full = seq!['<', '<'] + name + seq![opening] + label + seq![closing, '>', '>'];
    law_tags_are_read(name, opening, label, closing, rest);
    lemma_trimmed(name);
    lemma_led(lead, plain + rest);
    lemma_led(lead, full + rest);
}

proof fn lemma_led(lead: Seq<char>, s: Seq<char>)
    requires
        spaces(lead),
        s.len() > 0,
        !white_space(s[0]),
    ensures
        trimmed_start_of(lead + s, CharClass::Space) == s,
{
    let all = lead + s;
    let class = CharClass::Space;
    assert forall|i: int| 0 <= i < lead.len() implies class.has(#[trigger] all[i]) by {
        assert(all[i] == lead[i]);
    }
    assert(all[lead.len() as int] == s[0]);
    lemma_leading_unique(all, class, lead.len() as int);
    assert(all.skip(lead.len() as int) =~= s);
}

/// A text that does not begin with a tag, behind white space, has no speaker by a tag.
pub proof fn law_other_texts_have_no_tag(text: Seq<char>)
    ensures
        tag_at_start(trimmed_start_of(text, CharClass::Space)) is None ==> manual_tag(text) is None,
        manual_tag(text) matches Some(t) ==> t.tag.is_prefix_of(
            trimmed_start_of(text, CharClass::Space),
        ) && t.name.len() > 0,
{
    law_only_tags_are_read(trimmed_start_of(text, CharClass::Space));
}

/// Labels other than the names of the categories name a category only for children and the young.
pub proof fn law_labels_are_known(label: Seq<char>)
    ensures
        labelled(label) matches Some(c) ==> {
            ||| label == c.label_of()
            ||| label == "男儿童"@ && c == VoiceCategory::MaleChild
            ||| label == "女儿童"@ && c == VoiceCategory::FemaleChild
            ||| label == "男少年"@ && c == VoiceCategory::MaleTeen
            ||| label == "女少年"@ && c == VoiceCategory::FemaleTeen
        },
        label == "男儿童"@ || label == "女儿童"@ || label == "男少年"@ || label == "女少年"@
            ==> labelled(label) is Some,
        forall|c: VoiceCategory| label == #[trigger] c.label_of() ==> labelled(label) == Some(c),
{
    assert forall|c: VoiceCategory| label == #[trigger] c.label_of() implies labelled(label)
        == Some(c) by {
        law_labels_name_their_category(c);
    }
}

/// What is shown around a quotation is part of the text, `max` characters of it at most: the whole text
/// where that is short enough, and else from half as many characters before the first place of the
/// quotation on, or from the beginning where it is nearer or the quotation is not there.
pub proof fn law_windows_are_about_the_quotation(
    text: Seq<char>,
    center: Seq<char>,
    max: nat,
    at: int,
)
    requires
        0 <= at,
        forall|k: int| 0 <= k < at ==> !#[trigger] occurs_at(text, center, k),
        occurs_at(text, center, at) || (at == 0 && forall|k: int|
            !#[trigger] occurs_at(text, center, k)),
    ensures
        window(text, center, max).len() <= max,
        text.len() <= max ==> window(text, center, max) == text,
        0 < max < text.len() ==> ({
            let from = if at > max as int / 2 {
                at - max as int / 2
            } else {
                0
            };
            let to = if from + max <= text.len() {
                from + max
            } else {
                text.len() as int
            };
            window(text, center, max) == text.subrange(from, to)
        }),
{
    lemma_find_from(text, center, 0);
    if max == 0 && text.len() == 0 {
        assert(window(text, center, max) =~= text);
    }
    if 0 < max < text.len() {
        let found = match find_from(text, center, 0) {
            Some(i) => i,
            None => 0,
        };
        assert(found == at) by {
            match find_from(text, center, 0) {
                Some(i) => {
                    assert(occurs_at(text, center, i));
                    if i < at {
                        assert(!occurs_at(text, center, i));
                    }
                },
                None => {},
            }
        }
        let from = if at > max as int / 2 {
            at - max as int / 2
        } else {
            0
        };
        assert(text.skip(from) =~= text.subrange(from, text.len() as int));
    }
}

/// What is asked about a quotation tells the quotation and what stands around it.
pub proof fn law_contexts_hold_the_quotation(content: Seq<char>, dialogue: Seq<char>, max: nat)
    ensures
        ("【当前重点对话】\n"@ + dialogue).is_prefix_of(context_of(content, dialogue, max)),
        window(content, dialogue, max).is_suffix_of(context_of(content, dialogue, max)),
        context_of(content, dialogue, max) == "【当前重点对话】\n"@ + dialogue
            + "\n\n【对话附近上下文】\n"@ + window(content, dialogue, max),
{
    let all = context_of(content, dialogue, max);
    let head = "【当前重点对话】\n"@ + dialogue;
    let tail = window(content, dialogue, max);
    assert(all.subrange(0, head.len() as int) =~= head);
    assert(all.subrange(all.len() - tail.len(), all.len() as int) =~= tail);
}

/// A text is shown in one line: its first 40 characters, with spaces for line feeds, and dots behind
/// them where more follow.
pub proof fn law_texts_are_shown_in_one_line(text: Seq<char>, i: int)
    requires
        0 <= i < text.len(),
    ensures
        !shown(text).contains('\n'),
        text.len() <= 40 ==> shown(text).len() == text.len(),
        text.len() > 40 ==> shown(text).len() == 43 && shown(text).skip(40) == "..."@,
        i < 40 ==> shown(text)[i] == if text[i] == '\n' {
            ' '
        } else {
            text[i]
        },
{
    reveal_strlit("...");
    assert(!shown(text).contains('\n')) by {
        if shown(text).contains('\n') {
            let k = shown(text).index_of('\n');
            assert(shown(text)[k] == '\n');
        }
    }
    if text.len() > 40 {
        assert(shown(text).skip(40) =~= "..."@);
    }
}

/// The aliases that do not look garbled are kept, in their order.
pub proof fn law_clean_aliases_are_kept(aliases: Seq<Seq<char>>, flags: Seq<bool>)
    ensures
        clean_aliases(aliases, flags) == positions(
            aliases.len(),
            |i: int| i >= flags.len() || !flags[i],
        ).map_values(|i: int| aliases[i]),
    decreases aliases.len(),
{
    let is = |i: int| i >= flags.len() || !flags[i];
    let f = |i: int| aliases[i];
    if aliases.len() > 0 {
        let front = aliases.drop_last();
        let n = front.len();
        let g = |i: int| front[i];
        law_clean_aliases_are_kept(front, flags);
        lemma_positions(n, is);
        lemma_positions_step(n, is);
        let at = positions(n, is);
        assert(at.map_values(f) =~= at.map_values(g));
        if is(n as int) {
            assert(at.push(n as int).map_values(f) =~= at.map_values(f).push(aliases[n as int]));
        }
    } else {
        lemma_positions(0, is);
        assert(positions(0, is).map_values(f) =~= seq![]) by {
            if positions(0, is).len() > 0 {
                assert(0 <= positions(0, is)[0] < 0);
            }
        }
    }
}

/// A character of the table of voices has the name, the category and the voice of its entry, and those
/// of its aliases that do not look garbled; nothing is known of its gender and age.
pub proof fn law_entries_stand_for_characters(entry: EntryView, flags: Seq<bool>)
    ensures
        ({
            let c = entry_character(entry, flags);
            &&& c.name == entry.character_name
            &&& c.category == entry.category
            &&& entry.voice_id.len() > 0 ==> c.voice_id == Some(entry.voice_id)
            &&& entry.voice_id.len() == 0 ==> c.voice_id is None
            &&& c.aliases == clean_aliases(entry.aliases, flags)
            &&& c.enabled && c.gender is None && c.age is None
        }),
{
}

/// Every entry of the table whose name does not look garbled is a known character in the end, and
/// every character that the table adds is that of such an entry.
pub proof fn law_the_table_is_known(known: Seq<CharacterView>, entries: Seq<ScreenedEntry>)
    ensures
        forall|k: int|
            0 <= k < entries.len() && !(#[trigger] entries[k]).garbled ==> exists|i: int|
                0 <= i < known_with(known, entries).len() && (#[trigger] known_with(
                    known,
                    entries,
                )[i]).name == entries[k].entry@.character_name,
        forall|i: int|
            known.len() <= i < known_with(known, entries).len() ==> exists|k: int|
                0 <= k < entries.len() && !(#[trigger] entries[k]).garbled && (
                #[trigger] known_with(known, entries)[i]) == entry_character(
                    entries[k].entry@,
                    entries[k].garbled_aliases@,
                ),
    decreases entries.len(),
{
    let all = known_with(known, entries);
    if entries.len() > 0 {
        let front = entries.drop_last();
        let before = known_with(known, front);
        let n = front.len() as int;
        law_the_table_is_known(known, front);
        assert forall|k: int| 0 <= k < entries.len() && !(
        #[trigger] entries[k]).garbled implies exists|i: int|
            0 <= i < all.len() && (#[trigger] all[i]).name == entries[k].entry@.character_name by {
            if k < n {
                assert(front[k] == entries[k]);
                let i = choose|i: int|
                    0 <= i < before.len() && (#[trigger] before[i]).name
                        == entries[k].entry@.character_name;
                assert(all[i] == before[i]);
            } else if has_name(before, entries[n].entry@.character_name) {
                let i = choose|i: int|
                    0 <= i < before.len() && (#[trigger] before[i]).name
                        == entries[n].entry@.character_name;
                assert(all[i] == before[i]);
            } else {
                assert(all[all.len() - 1].name == entries[n].entry@.character_name);
            }
        }
        assert forall|i: int| known.len() <= i < all.len() implies exists|k: int|
            0 <= k < entries.len() && !(#[trigger] entries[k]).garbled && (#[trigger] all[i])
                == entry_character(entries[k].entry@, entries[k].garbled_aliases@) by {
            if i < before.len() {
                assert(all[i] == before[i]);
                let k = choose|k: int|
                    0 <= k < front.len() && !(#[trigger] front[k]).garbled && before[i]
                        == entry_character(front[k].entry@, front[k].garbled_aliases@);
                assert(entries[k] == front[k]);
            } else {
                assert(!entries[n].garbled);
            }
        }
    }
}

/// The speakers that are asked for are those of the quotations that have no tag and no speaker yet,
/// all of them and in order, each with the index and the text of its batch.
pub proof fn law_all_open_quotations_are_asked_for(
    batches: Seq<BatchView>,
    speakers: Seq<Option<SpeakerResult>>,
    n: nat,
)
    ensures
        open_inputs(batches, speakers, n) == positions(
            n,
            |i: int|
                batches[i].is_dialogue && manual_tag(batches[i].text) is None && speakers[i] is None,
        ).map_values(|i: int| (i as usize, batches[i].text)),
    decreases n,
{
    let is = |i: int|
        batches[i].is_dialogue && manual_tag(batches[i].text) is None && speakers[i] is None;
    let f = |i: int| (i as usize, batches[i].text);
    if n > 0 {
        let m = (n - 1) as nat;
        law_all_open_quotations_are_asked_for(batches, speakers, m);
        lemma_positions_step(m, is);
        if is(m as int) {
            let at = positions(m, is);
            assert(at.push(m as int).map_values(f) =~= at.map_values(f).push(f(m as int)));
        }
    } else {
        lemma_positions(0, is);
        assert(positions(0, is).map_values(f) =~= seq![]) by {
            if positions(0, is).len() > 0 {
                assert(0 <= positions(0, is)[0] < 0);
            }
        }
    }
}

/// A quotation that was asked for gets the speaker that the answer tells of it last; one of which the
/// answer tells nothing keeps what it had.
pub proof fn law_answers_are_taken_over(
    speakers: Seq<Option<SpeakerResult>>,
    inputs: Seq<InputView>,
    results: Seq<ChapterSpeaker>,
    i: int,
    k: int,
)
    requires
        0 <= i < speakers.len() <= usize::MAX,
        inputs_in_range(inputs, speakers.len()),
        exists|m: int| 0 <= m < inputs.len() && (#[trigger] inputs[m]).0 == i,
        -1 <= k < results.len(),
        k >= 0 ==> results[k].index == i,
        forall|m: int| k < m < results.len() ==> (#[trigger] results[m]).index != i,
    ensures
        accepted(speakers, inputs, results).len() == speakers.len(),
        accepted(speakers, inputs, results)[i] == if k >= 0 {
            Some(results[k].speaker)
        } else {
            speakers[i]
        },
    decreases results.len(),
{
    if results.len() > 0 {
        let front = results.drop_last();
        let n = front.len() as int;
        assert(results[n] == results.last());
        if k < n {
            assert forall|m: int| k < m < front.len() implies (#[trigger] front[m]).index != i by {
                assert(front[m] == results[m]);
            }
            law_answers_are_taken_over(speakers, inputs, front, i, k);
        } else {
            lemma_accepted_len(speakers, inputs, front);
            let m = choose|m: int| 0 <= m < inputs.len() && (#[trigger] inputs[m]).0 == i;
            assert(asked_for(inputs, i as usize));
        }
    }
}

proof fn lemma_accepted_len(
    speakers: Seq<Option<SpeakerResult>>,
    inputs: Seq<InputView>,
    results: Seq<ChapterSpeaker>,
)
    requires
        inputs_in_range(inputs, speakers.len()),
    ensures
        accepted(speakers, inputs, results).len() == speakers.len(),
    decreases results.len(),
{
    if results.len() > 0 {
        lemma_accepted_len(speakers, inputs, results.drop_last());
        if asked_for(inputs, results.last().index) {
            let m = choose|m: int|
                0 <= m < inputs.len() && (#[trigger] inputs[m]).0 == results.last().index;
            assert(inputs[m].0 < speakers.len());
        }
    }
}

/// A chapter is asked for again where fewer than four of five quotations have a speaker: of those
/// without a tag that have a speaker or were asked for, or of one where there are none.
pub proof fn law_four_of_five_speakers_suffice(
    batches: Seq<BatchView>,
    speakers: Seq<Option<SpeakerResult>>,
    inputs: Seq<InputView>,
)
    requires
        batches.len() <= usize::MAX,
        speakers.len() == batches.len(),
    ensures
        ({
            let found = positions(speakers.len(), |i: int| speakers[i] is Some).len();
            let wanted = positions(
                batches.len(),
                |i: int|
                    batches[i].is_dialogue && manual_tag(batches[i].text) is None && (speakers[i] is Some
                        || exists|m: int|
                        0 <= m < inputs.len() && (#[trigger] inputs[m]).0 == i),
            ).len();
            too_few(batches, speakers, inputs) <==> if wanted == 0 {
                found == 0
            } else {
                5 * found < 4 * wanted
            }
        }),
{
    lemma_found_count(speakers, speakers.len());
    lemma_counted(batches, speakers, inputs, batches.len());
}

proof fn lemma_found_count(speakers: Seq<Option<SpeakerResult>>, n: nat)
    ensures
        found_count(speakers, n) == positions(n, |i: int| speakers[i] is Some).len(),
    decreases n,
{
    let is = |i: int| speakers[i] is Some;
    if n > 0 {
        lemma_found_count(speakers, (n - 1) as nat);
        lemma_positions_step((n - 1) as nat, is);
    } else {
        lemma_positions(0, is);
        if positions(0, is).len() > 0 {
            assert(0 <= positions(0, is)[0] < 0);
        }
    }
}

proof fn lemma_counted(
    batches: Seq<BatchView>,
    speakers: Seq<Option<SpeakerResult>>,
    inputs: Seq<InputView>,
    n: nat,
)
    requires
        n <= usize::MAX,
    ensures
        counted(batches, speakers, inputs, n) == positions(
            n,
            |i: int|
                batches[i].is_dialogue && manual_tag(batches[i].text) is None && (speakers[i] is Some
                    || exists|m: int| 0 <= m < inputs.len() && (#[trigger] inputs[m]).0 == i),
        ).len(),
    decreases n,
{
    let is = |i: int|
        batches[i].is_dialogue && manual_tag(batches[i].text) is None && (speakers[i] is Some
            || exists|m: int| 0 <= m < inputs.len() && (#[trigger] inputs[m]).0 == i);
    if n > 0 {
        let k = (n - 1) as nat;
        lemma_counted(batches, speakers, inputs, k);
        lemma_positions_step(k, is);
        assert(is(k as int) == counts(batches[k as int], speakers[k as int], inputs, k as usize)) by {
            if asked_for(inputs, k as usize) {
                let m = choose|m: int| 0 <= m < inputs.len() && (#[trigger] inputs[m]).0 == k as usize;
                assert(inputs[m].0 == k as int);
            }
            if exists|m: int| 0 <= m < inputs.len() && (#[trigger] inputs[m]).0 == k as int {
                let m = choose|m: int| 0 <= m < inputs.len() && (#[trigger] inputs[m]).0 == k as int;
                assert(inputs[m].0 == k as usize);
            }
        }
    } else {
        lemma_positions(0, is);
        if positions(0, is).len() > 0 {
            assert(0 <= positions(0, is)[0] < 0);
        }
    }
}

/// The quotations that are asked for again are those of a request that still have no speaker, in their
/// order.
pub proof fn law_unanswered_quotations_are_kept(
    inputs: Seq<InputView>,
    speakers: Seq<Option<SpeakerResult>>,
)
    ensures
        unanswered(inputs, speakers) == inputs.filter(
            |input: InputView| speakers[input.0 as int] is None,
        ),
    decreases inputs.len(),
{
    reveal(Seq::filter);
    if inputs.len() > 0 {
        law_unanswered_quotations_are_kept(inputs.drop_last(), speakers);
    }
}

/// An analysis first asks for all quotations at once, and then for those that are left, ten at a time,
/// in order and without a gap, until all were asked for; where nothing is to be found it asks nothing.
pub proof fn law_an_analysis_asks_in_turn(
    a: AnalysisView,
    batches: Seq<BatchView>,
    results: Seq<ChapterSpeaker>,
)
    requires
        a.valid(),
    ensures
        a.inputs.len() == 0 ==> a.request() is None,
        a.inputs.len() > 0 && !a.asked ==> a.request() == Some(a.inputs),
        a.inputs.len() > 0 && a.asked ==> ({
            let to = if a.next + 10 <= a.missing.len() {
                a.next + 10int
            } else {
                a.missing.len() as int
            };
            a.request() == if a.next < a.missing.len() {
                Some(a.missing.subrange(a.next as int, to))
            } else {
                None
            }
        }),
        a.request() is Some && !a.asked ==> ({
            let b = a.answered(batches, results);
            &&& b.asked && b.next == 0 && b.inputs == a.inputs
            &&& b.speakers == accepted(a.speakers, a.inputs, results)
            &&& too_few(batches, b.speakers, a.inputs) ==> b.missing == unanswered(
                a.inputs,
                b.speakers,
            )
            &&& !too_few(batches, b.speakers, a.inputs) ==> b.missing.len() == 0
        }),
        a.request() is Some && a.asked ==> ({
            let b = a.answered(batches, results);
            &&& b.asked && b.inputs == a.inputs && b.missing == a.missing
            &&& b.next == a.next + a.request()->0.len()
            &&& b.speakers == accepted(a.speakers, a.request()->0, results)
        }),
{
    if a.inputs.len() > 0 && a.asked && a.next < a.missing.len() {
        assert(a.missing.skip(a.next as int) =~= a.missing.subrange(
            a.next as int,
            a.missing.len() as int,
        ));
    }
}

/// An analysis that is in use starts with all open quotations and the speakers that are known; one that
/// is not in use asks for nothing.
pub proof fn law_an_analysis_starts_with_what_is_known(
    in_use: bool,
    batches: Seq<BatchView>,
    speakers: Seq<Option<SpeakerResult>>,
)
    ensures
        ({
            let a = analysis_start(in_use, batches, speakers);
            &&& a.speakers == speakers
            &&& !a.asked && a.next == 0 && a.missing.len() == 0
            &&& in_use ==> a.inputs == open_inputs(batches, speakers, batches.len())
            &&& !in_use ==> a.inputs.len() == 0 && a.request() is None
        }),
{
}

/// A tag tells its name, its category and its text, and quotations that are asked for tell their
/// index and their text, in their order.
pub proof fn law_tags_and_inputs_hold_every_part(
    tag: ManualTag,
    v: Seq<ChapterDialogueInput>,
    i: int,
    run: ChapterAnalysis,
)
    ensures
        tag@.name == tag.name@,
        tag@.category == tag.category,
        tag@.tag == tag.tag@,
        input_views(v).len() == v.len(),
        0 <= i < v.len() ==> input_views(v)[i] == (v[i].index, v[i].text@),
        run@.inputs == input_views(run.inputs@),
        run@.missing == input_views(run.missing@),
        run@.speakers == run.speakers@,
        run@.asked == run.asked,
        run@.next == run.next,
{
}

/// Answers about quotations that were not asked for are passed over.
pub proof fn law_other_answers_are_passed_over(
    speakers: Seq<Option<SpeakerResult>>,
    inputs: Seq<InputView>,
    results: Seq<ChapterSpeaker>,
    i: int,
)
    requires
        0 <= i < speakers.len() <= usize::MAX,
        inputs_in_range(inputs, speakers.len()),
        forall|m: int| 0 <= m < inputs.len() ==> (#[trigger] inputs[m]).0 != i,
    ensures
        accepted(speakers, inputs, results)[i] == speakers[i],
{
    lemma_accepted_keeps(speakers, inputs, results, i);
}

/// The first entry of a name that is not known yet, and does not look garbled, is known as the
/// character that it stands for.
pub proof fn law_the_first_entry_of_a_name_is_known(
    known: Seq<CharacterView>,
    entries: Seq<ScreenedEntry>,
    k: int,
)
    requires
        0 <= k < entries.len(),
        !entries[k].garbled,
        forall|i: int|
            0 <= i < known.len() ==> (#[trigger] known[i]).name != entries[k].entry@.character_name,
        forall|m: int|
            0 <= m < k && !(#[trigger] entries[m]).garbled ==> entries[m].entry@.character_name
                != entries[k].entry@.character_name,
    ensures
        known_with(known, entries).contains(
            entry_character(entries[k].entry@, entries[k].garbled_aliases@),
        ),
    decreases entries.len(),
{
    let front = entries.drop_last();
    let before = known_with(known, front);
    let after = known_with(known, entries);
    let wanted = entry_character(entries[k].entry@, entries[k].garbled_aliases@);
    if k < front.len() {
        assert(front[k] == entries[k]);
        assert forall|m: int| 0 <= m < k && !(#[trigger] front[m]).garbled implies front[m].entry@
            .character_name != front[k].entry@.character_name by {
            assert(front[m] == entries[m]);
        }
        law_the_first_entry_of_a_name_is_known(known, front, k);
        let i = before.index_of(wanted);
        assert(after[i] == wanted);
    } else {
        law_known_characters_keep_their_place(known, front);
        law_the_table_is_known(known, front);
        let name = entries[k].entry@.character_name;
        assert(!has_name(before, name)) by {
            if has_name(before, name) {
                let i = choose|i: int| 0 <= i < before.len() && (#[trigger] before[i]).name == name;
                if i < known.len() {
                    assert(before.subrange(0, known.len() as int)[i] == known[i]);
                } else {
                    let m = choose|m: int|
                        0 <= m < front.len() && !(#[trigger] front[m]).garbled && before[i]
                            == entry_character(front[m].entry@, front[m].garbled_aliases@);
                    assert(front[m] == entries[m]);
                }
            }
        }
        assert(after[before.len() as int] == wanted);
    }
}

} // verus!
