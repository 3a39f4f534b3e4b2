//! The speakers of a book: what is known of characters, what an analysis says of a speaker, and
//! the table of the voices that characters have.

use crate::search::{find, find_from, lemma_find_from, occurs_at};
use crate::text::{
    blank, copy, from_chars, is_blank, lemma_trimmed, texts, to_chars, trim, trim_range, trimmed,
    CharClass,
};
use vstd::prelude::*;

verus! {

/// The view of an optional string.
pub open spec fn opt_text(o: Option<String>) -> Option<Seq<char>> {
    match o {
        Some(s) => Some(s@),
        None => None,
    }
}

/// A copy of an optional string.
pub fn copy_option(o: &Option<String>) -> (r: Option<String>)
    ensures
        r == *o,
        opt_text(r) == opt_text(*o),
{
    match o {
        Some(s) => Some(s.clone()),
        None => None,
    }
}

/// A copy of strings.
pub fn copy_strings(v: &Vec<String>) -> (r: Vec<String>)
    ensures
        texts(r@) == texts(v@),
{
    let mut r: Vec<String> = Vec::new();
    let mut i: usize = 0;
    while i < v.len()
        invariant
            i <= v@.len(),
            texts(r@) == texts(v@).take(i as int),
        decreases v@.len() - i,
    {
        let ghost before = texts(r@);
        r.push(v[i].clone());
        assert(texts(r@) =~= before.push(texts(v@)[i as int]));
        i += 1;
        assert(texts(r@) =~= texts(v@).take(i as int));
    }
    assert(texts(r@) =~= texts(v@));
    r
}

/// The kinds of voice.
#[derive(Clone, Copy, Debug, PartialEq, Eq, Structural)]
pub enum VoiceCategory {
    MaleChild,
    FemaleChild,
    MaleTeen,
    FemaleTeen,
    MaleYouth,
    FemaleYouth,
    MaleMiddleAge,
    FemaleMiddleAge,
    MaleElder,
    FemaleElder,
}

impl VoiceCategory {
    /// The name of the category.
    pub open spec fn label_of(self) -> Seq<char> {
        match self {
            VoiceCategory::MaleChild => "男童"@,
            VoiceCategory::FemaleChild => "女童"@,
            VoiceCategory::MaleTeen => "少男"@,
            VoiceCategory::FemaleTeen => "少女"@,
            VoiceCategory::MaleYouth => "男青年"@,
            VoiceCategory::FemaleYouth => "女青年"@,
            VoiceCategory::MaleMiddleAge => "男中年"@,
            VoiceCategory::FemaleMiddleAge => "女中年"@,
            VoiceCategory::MaleElder => "男老年"@,
            VoiceCategory::FemaleElder => "女老年"@,
        }
    }

    /// The name of the category.
    pub fn label(self) -> (r: &'static str)
        ensures
            r@ == self.label_of(),
    {
        match self {
            VoiceCategory::MaleChild => "男童",
            VoiceCategory::FemaleChild => "女童",
            VoiceCategory::MaleTeen => "少男",
            VoiceCategory::FemaleTeen => "少女",
            VoiceCategory::MaleYouth => "男青年",
            VoiceCategory::FemaleYouth => "女青年",
            VoiceCategory::MaleMiddleAge => "男中年",
            VoiceCategory::FemaleMiddleAge => "女中年",
            VoiceCategory::MaleElder => "男老年",
            VoiceCategory::FemaleElder => "女老年",
        }
    }
}

/// Where the voice of a character comes from.
#[derive(Clone, Copy, Debug, PartialEq, Eq, Structural)]
pub enum AllocationSource {
    /// The voice that the character is configured with.
    CharacterOverride,
    /// The category that the character is configured with.
    CharacterCategory,
    /// What an analysis says of the speaker.
    AIInferred,
    /// An edit or a tag in the text.
    Manual,
}

/// A character that is configured for a book.
#[derive(Debug)]
pub struct CharacterVoice {
    pub name: String,
    pub aliases: Vec<String>,
    pub gender: Option<String>,
    pub age: Option<String>,
    pub category: Option<VoiceCategory>,
    pub voice_id: Option<String>,
    pub enabled: bool,
}

/// A character as a value.
#[verifier::ext_equal]
pub struct CharacterView {
    pub name: Seq<char>,
    pub aliases: Seq<Seq<char>>,
    pub gender: Option<Seq<char>>,
    pub age: Option<Seq<char>>,
    pub category: Option<VoiceCategory>,
    pub voice_id: Option<Seq<char>>,
    pub enabled: bool,
}

impl View for CharacterVoice {
    type V = CharacterView;

    open spec fn view(&self) -> CharacterView {
        CharacterView {
            name: self.name@,
            aliases: texts(self.aliases@),
            gender: opt_text(self.gender),
            age: opt_text(self.age),
            category: self.category,
            voice_id: opt_text(self.voice_id),
            enabled: self.enabled,
        }
    }
}

impl Clone for CharacterVoice {
    fn clone(&self) -> (r: CharacterVoice)
        ensures
            r@ == self@,
    {
        CharacterVoice {
            name: self.name.clone(),
            aliases: copy_strings(&self.aliases),
            gender: copy_option(&self.gender),
            age: copy_option(&self.age),
            category: self.category,
            voice_id: copy_option(&self.voice_id),
            enabled: self.enabled,
        }
    }
}

/// The views of characters.
pub open spec fn character_views(v: Seq<CharacterVoice>) -> Seq<CharacterView> {
    Seq::new(v.len(), |i: int| v[i]@)
}

/// What an analysis says of the speaker of a quotation. The confidence is the bit pattern of a
/// single-precision number.
#[derive(Debug)]
pub struct SpeakerResult {
    pub name: String,
    pub gender: Option<String>,
    pub age: Option<String>,
    pub confidence: Option<u32>,
    pub reason: Option<String>,
}

impl Clone for SpeakerResult {
    fn clone(&self) -> (r: SpeakerResult)
        ensures
            r == *self,
    {
        SpeakerResult {
            name: self.name.clone(),
            gender: copy_option(&self.gender),
            age: copy_option(&self.age),
            confidence: self.confidence,
            reason: copy_option(&self.reason),
        }
    }
}

/// The voice of a character in a book.
#[derive(Debug)]
pub struct VoiceAllocationEntry {
    pub character_name: String,
    pub aliases: Vec<String>,
    pub category: Option<VoiceCategory>,
    pub category_label: Option<String>,
    pub voice_id: String,
    pub source: AllocationSource,
    pub locked: bool,
    pub volume: Option<u8>,
    pub speed: Option<u8>,
    pub pitch: Option<u8>,
    pub confidence: Option<u32>,
    pub reason: Option<String>,
    pub needs_review: bool,
}

/// The voice of a character as a value.
#[verifier::ext_equal]
pub struct EntryView {
    pub character_name: Seq<char>,
    pub aliases: Seq<Seq<char>>,
    pub category: Option<VoiceCategory>,
    pub category_label: Option<Seq<char>>,
    pub voice_id: Seq<char>,
    pub source: AllocationSource,
    pub locked: bool,
    pub volume: Option<u8>,
    pub speed: Option<u8>,
    pub pitch: Option<u8>,
    pub confidence: Option<u32>,
    pub reason: Option<Seq<char>>,
    pub needs_review: bool,
}

impl View for VoiceAllocationEntry {
    type V = EntryView;

    open spec fn view(&self) -> EntryView {
        EntryView {
            character_name: self.character_name@,
            aliases: texts(self.aliases@),
            category: self.category,
            category_label: opt_text(self.category_label),
            voice_id: self.voice_id@,
            source: self.source,
            locked: self.locked,
            volume: self.volume,
            speed: self.speed,
            pitch: self.pitch,
            confidence: self.confidence,
            reason: opt_text(self.reason),
            needs_review: self.needs_review,
        }
    }
}

impl Clone for VoiceAllocationEntry {
    fn clone(&self) -> (r: VoiceAllocationEntry)
        ensures
            r@ == self@,
    {
        VoiceAllocationEntry {
            character_name: self.character_name.clone(),
            aliases: copy_strings(&self.aliases),
            category: self.category,
            category_label: copy_option(&self.category_label),
            voice_id: self.voice_id.clone(),
            source: self.source,
            locked: self.locked,
            volume: self.volume,
            speed: self.speed,
            pitch: self.pitch,
            confidence: self.confidence,
            reason: copy_option(&self.reason),
            needs_review: self.needs_review,
        }
    }
}

/// The voices of the characters of a book.
#[derive(Debug)]
pub struct VoiceAllocationTable {
    pub schema_version: u32,
    pub file_path: String,
    pub novel_title: String,
    pub entries: Vec<VoiceAllocationEntry>,
    pub generated_at: u64,
}

/// How speakers are recognised, as far as this library reads it.
#[derive(Debug)]
pub struct AiDialogueConfig {
    pub enabled: bool,
    pub api_url: Option<String>,
    pub api_key: Option<String>,
    pub model: Option<String>,
    pub chapter_analysis_enabled: bool,
    pub save_crowd_characters: bool,
    pub context_chars: usize,
    pub characters: Vec<CharacterVoice>,
}

/// The configuration as a value.
#[verifier::ext_equal]
pub struct AiConfigView {
    pub enabled: bool,
    pub api_url: Option<Seq<char>>,
    pub api_key: Option<Seq<char>>,
    pub model: Option<Seq<char>>,
    pub chapter_analysis_enabled: bool,
    pub save_crowd_characters: bool,
    pub context_chars: usize,
    pub characters: Seq<CharacterView>,
}

impl View for AiDialogueConfig {
    type V = AiConfigView;

    open spec fn view(&self) -> AiConfigView {
        AiConfigView {
            enabled: self.enabled,
            api_url: opt_text(self.api_url),
            api_key: opt_text(self.api_key),
            model: opt_text(self.model),
            chapter_analysis_enabled: self.chapter_analysis_enabled,
            save_crowd_characters: self.save_crowd_characters,
            context_chars: self.context_chars,
            characters: character_views(self.characters@),
        }
    }
}

/// A copy of characters.
pub fn copy_characters(v: &Vec<CharacterVoice>) -> (r: Vec<CharacterVoice>)
    ensures
        character_views(r@) == character_views(v@),
{
    let mut r: Vec<CharacterVoice> = Vec::new();
    let mut i: usize = 0;
    while i < v.len()
        invariant
            i <= v@.len(),
            character_views(r@) == character_views(v@).take(i as int),
        decreases v@.len() - i,
    {
        let ghost before = character_views(r@);
        r.push(v[i].clone());
        assert(character_views(r@) =~= before.push(character_views(v@)[i as int]));
        i += 1;
        assert(character_views(r@) =~= character_views(v@).take(i as int));
    }
    assert(character_views(r@) =~= character_views(v@));
    r
}

impl Clone for AiDialogueConfig {
    fn clone(&self) -> (r: AiDialogueConfig)
        ensures
            r@ == self@,
    {
        AiDialogueConfig {
            enabled: self.enabled,
            api_url: copy_option(&self.api_url),
            api_key: copy_option(&self.api_key),
            model: copy_option(&self.model),
            chapter_analysis_enabled: self.chapter_analysis_enabled,
            save_crowd_characters: self.save_crowd_characters,
            context_chars: self.context_chars,
            characters: copy_characters(&self.characters),
        }
    }
}

/// The first key, of a list of keys that `@@` separates, that is not blank; trimmed.
pub open spec fn first_key(s: Seq<char>) -> Option<Seq<char>>
    decreases s.len(),
{
    match find_from(s, seq!['@', '@'], 0) {
        Some(i) if 0 <= i && i + 2 <= s.len() => if blank(s.take(i)) {
            first_key(s.skip(i + 2))
        } else {
            Some(trimmed(s.take(i)))
        },
        _ => if blank(s) {
            None
        } else {
            Some(trimmed(s))
        },
    }
}

/// The first key, of a list of keys that `@@` separates, that is not blank.
pub fn pick_api_key(keys: &str) -> (r: Option<String>)
    ensures
        r matches Some(k) ==> first_key(keys@) == Some(k@),
        r is None ==> first_key(keys@) is None,
{
    let mut rest = copy(keys);
    let separator = to_chars("@@");
    proof {
        reveal_strlit("@@");
        assert(separator@ =~= seq!['@', '@']);
    }
    loop
        invariant
            separator@ == seq!['@', '@'],
            first_key(rest@) == first_key(keys@),
        decreases rest@.len(),
    {
        let chars = to_chars(rest.as_str());
        let n = chars.len();
        proof {
            lemma_find_from(rest@, seq!['@', '@'], 0);
        }
        match find(&chars, &separator) {
            Some(i) => {
                let (a, b) = trim_range(&chars, 0, i, CharClass::Space);
                proof {
                    assert(chars@.subrange(0, i as int) =~= rest@.take(i as int));
                    lemma_trimmed(rest@.take(i as int));
                }
                if a < b {
                    return Some(from_chars(&chars, a, b));
                }
                let next = from_chars(&chars, i + 2, n);
                assert(next@ =~= rest@.skip(i + 2));
                rest = next;
            },
            None => {
                proof {
                    lemma_trimmed(rest@);
                }
                if is_blank(rest.as_str()) {
                    return None;
                }
                return Some(trim(rest.as_str()));
            },
        }
    }
}

/// A list of keys begins with the keys in front of its first separator: where these are blank they
/// are passed over, and otherwise they are the key, trimmed; a list without a separator is one key.
pub proof fn law_the_first_key_counts(a: Seq<char>, b: Seq<char>)
    requires
        find_from(a.push('@'), "@@"@, 0) is None,
    ensures
        blank(a) ==> first_key(a + "@@"@ + b) == first_key(b),
        !blank(a) ==> first_key(a + "@@"@ + b) == Some(trimmed(a)),
        blank(a) ==> first_key(a) is None,
        !blank(a) ==> first_key(a) == Some(trimmed(a)),
{
    reveal_strlit("@@");
    let sep = seq!['@', '@'];
    assert("@@"@ =~= sep);
    let n = a.len() as int;
    let all = a + sep + b;
    assert(all.take(n) =~= a);
    assert(all.skip(n + 2) =~= b);
    assert(all.subrange(n, n + 2) =~= sep);
    lemma_first_separator(a, all, sep);
    lemma_no_separator_alone(a, sep);
}

proof fn lemma_first_separator(a: Seq<char>, all: Seq<char>, sep: Seq<char>)
    requires
        sep.len() == 2,
        sep[0] == '@',
        find_from(a.push('@'), sep, 0) is None,
        occurs_at(all, sep, a.len() as int),
        all.take(a.len() as int) == a,
    ensures
        find_from(all, sep, 0) == Some(a.len() as int),
{
    let n = a.len() as int;
    lemma_first_place(all, sep, n);
    let i = find_from(all, sep, 0)->0;
    if i < n {
        assert(a[i] == all.take(n)[i]);
        if i + 1 < n {
            assert(a[i + 1] == all.take(n)[i + 1]);
        } else {
            assert(all.subrange(n, n + 2)[0] == sep[0]);
        }
        lemma_no_separator(a, all, sep, i);
    }
}

proof fn lemma_no_separator_alone(a: Seq<char>, sep: Seq<char>)
    requires
        sep.len() == 2,
        find_from(a.push('@'), sep, 0) is None,
    ensures
        find_from(a, sep, 0) is None,
{
    lemma_find_from(a, sep, 0);
    if let Some(i) = find_from(a, sep, 0) {
        lemma_no_separator(a, a, sep, i);
    }
}

proof fn lemma_first_place(s: Seq<char>, p: Seq<char>, n: int)
    requires
        occurs_at(s, p, n),
    ensures
        find_from(s, p, 0) matches Some(i) && 0 <= i <= n && occurs_at(s, p, i),
{
    lemma_find_from(s, p, 0);
}

proof fn lemma_no_separator(a: Seq<char>, s: Seq<char>, sep: Seq<char>, i: int)
    requires
        sep.len() == 2,
        find_from(a.push('@'), sep, 0) is None,
        0 <= i < a.len(),
        i + 2 <= s.len(),
        s[i] == a[i],
        s[i + 1] == a.push('@')[i + 1],
    ensures
        !occurs_at(s, sep, i),
{
    lemma_find_from(a.push('@'), sep, 0);
    assert(!occurs_at(a.push('@'), sep, i));
    assert(s.subrange(i, i + 2) =~= a.push('@').subrange(i, i + 2));
}

/// Two characters, two entries or two configurations that are the same as values are so in each of
/// their parts.
pub proof fn law_values_hold_every_part(
    a: CharacterVoice,
    b: CharacterVoice,
    e: VoiceAllocationEntry,
    f: VoiceAllocationEntry,
    c: AiDialogueConfig,
    d: AiDialogueConfig,
)
    ensures
        a@ == b@ ==> {
            &&& a.name@ == b.name@
            &&& texts(a.aliases@) == texts(b.aliases@)
            &&& opt_text(a.gender) == opt_text(b.gender)
            &&& opt_text(a.age) == opt_text(b.age)
            &&& a.category == b.category
            &&& opt_text(a.voice_id) == opt_text(b.voice_id)
            &&& a.enabled == b.enabled
        },
        e@ == f@ ==> {
            &&& e.character_name@ == f.character_name@
            &&& texts(e.aliases@) == texts(f.aliases@)
            &&& e.category == f.category
            &&& opt_text(e.category_label) == opt_text(f.category_label)
            &&& e.voice_id@ == f.voice_id@
            &&& e.source == f.source
            &&& e.locked == f.locked
            &&& e.volume == f.volume
            &&& e.speed == f.speed
            &&& e.pitch == f.pitch
            &&& e.confidence == f.confidence
            &&& opt_text(e.reason) == opt_text(f.reason)
            &&& e.needs_review == f.needs_review
        },
        c@ == d@ ==> {
            &&& c.enabled == d.enabled
            &&& opt_text(c.api_url) == opt_text(d.api_url)
            &&& opt_text(c.api_key) == opt_text(d.api_key)
            &&& opt_text(c.model) == opt_text(d.model)
            &&& c.chapter_analysis_enabled == d.chapter_analysis_enabled
            &&& c.save_crowd_characters == d.save_crowd_characters
            &&& c.context_chars == d.context_chars
            &&& character_views(c.characters@) == character_views(d.characters@)
        },
{
}

/// The values of characters are those of each, in their order; an optional text is there where its
/// characters are.
pub proof fn law_characters_keep_their_order(v: Seq<CharacterVoice>, i: int, o: Option<String>)
    ensures
        character_views(v).len() == v.len(),
        0 <= i < v.len() ==> character_views(v)[i] == v[i]@,
        opt_text(o) is Some <==> o is Some,
        o matches Some(s) ==> opt_text(o) == Some(s@),
{
}

/// No two categories have one name, and a name tells the gender and the age of its voices.
pub proof fn law_categories_have_names_of_their_own(a: VoiceCategory, b: VoiceCategory)
    ensures
        a.label_of() == b.label_of() <==> a == b,
        a.label_of().contains('男') <==> a is MaleChild || a is MaleTeen || a is MaleYouth
            || a is MaleMiddleAge || a is MaleElder,
        a.label_of().contains('女') <==> a is FemaleChild || a is FemaleTeen || a is FemaleYouth
            || a is FemaleMiddleAge || a is FemaleElder,
        a.label_of().contains('童') <==> a is MaleChild || a is FemaleChild,
        a.label_of().contains('少') <==> a is MaleTeen || a is FemaleTeen,
        a.label_of().contains('青') <==> a is MaleYouth || a is FemaleYouth,
        a.label_of().contains('中') <==> a is MaleMiddleAge || a is FemaleMiddleAge,
        a.label_of().contains('老') <==> a is MaleElder || a is FemaleElder,
{
    reveal_strlit("男童");
    reveal_strlit("女童");
    reveal_strlit("少男");
    reveal_strlit("少女");
    reveal_strlit("男青年");
    reveal_strlit("女青年");
    reveal_strlit("男中年");
    reveal_strlit("女中年");
    reveal_strlit("男老年");
    reveal_strlit("女老年");
    let x = a.label_of();
    let y = b.label_of();
    assert(forall|c: char| #[trigger] x.contains(c) ==> x[0] == c || x[1] == c || x[2] == c);
    assert(x.contains(x[0]) && x.contains(x[1]));
    assert(x.len() == 3 ==> x.contains(x[2]));
    if x == y {
        assert(x[0] == y[0] && x[1] == y[1]);
        if x.len() == 3 {
            assert(x[2] == y[2]);
        }
    }
}

} // verus!
