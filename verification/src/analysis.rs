//! The saved analysis of a book: who speaks the quotations of its chapters.

use crate::ai::SpeakerResult;
use crate::batches::{batch_views, BatchData, BatchView};
use crate::dialogue::{dialogue_inputs, input_views, open_inputs};
use crate::search::{lemma_positions, lemma_positions_step, positions, same};
use vstd::prelude::*;

verus! {

/// The speaker of a quotation: the index of its batch in the chapter, and its text.
#[derive(Debug)]
pub struct DialogueAnalysisEntry {
    pub batch_index: usize,
    pub text: String,
    pub speaker: SpeakerResult,
}

impl Clone for DialogueAnalysisEntry {
    fn clone(&self) -> (r: DialogueAnalysisEntry)
        ensures
            r == *self,
    {
        DialogueAnalysisEntry {
            batch_index: self.batch_index,
            text: self.text.clone(),
            speaker: self.speaker.clone(),
        }
    }
}

/// The speakers of a chapter.
#[derive(Debug)]
pub struct ChapterDialogueAnalysis {
    pub chapter_index: usize,
    pub chapter_title: String,
    pub dialogues: Vec<DialogueAnalysisEntry>,
}

/// The speakers of a chapter as a value.
#[verifier::ext_equal]
pub struct ChapterAnalysisView {
    pub index: usize,
    pub title: Seq<char>,
    pub dialogues: Seq<DialogueAnalysisEntry>,
}

impl View for ChapterDialogueAnalysis {
    type V = ChapterAnalysisView;

    open spec fn view(&self) -> ChapterAnalysisView {
        ChapterAnalysisView {
            index: self.chapter_index,
            title: self.chapter_title@,
            dialogues: self.dialogues@,
        }
    }
}

/// The speakers of a book, by chapter.
#[derive(Debug)]
pub struct DialogueAnalysisTable {
    pub schema_version: u32,
    pub file_path: String,
    pub novel_title: String,
    pub generated_at: u64,
    pub chapters: Vec<ChapterDialogueAnalysis>,
}

/// The views of the chapters of a table.
pub open spec fn analysis_views(v: Seq<ChapterDialogueAnalysis>) -> Seq<ChapterAnalysisView> {
    Seq::new(v.len(), |i: int| v[i]@)
}

/// The position of the first chapter with that index.
pub open spec fn position(chapters: Seq<ChapterAnalysisView>, index: usize) -> Option<int>
    decreases chapters.len(),
{
    if chapters.len() == 0 {
        None
    } else if chapters[0].index == index {
        Some(0)
    } else {
        match position(chapters.skip(1), index) {
            Some(i) => Some(i + 1),
            None => None,
        }
    }
}

/// `c` put before the first chapter whose index is not smaller.
pub open spec fn placed(
    c: ChapterAnalysisView,
    chapters: Seq<ChapterAnalysisView>,
) -> Seq<ChapterAnalysisView>
    decreases chapters.len(),
{
    if chapters.len() == 0 || c.index <= chapters[0].index {
        seq![c] + chapters
    } else {
        seq![chapters[0]] + placed(c, chapters.skip(1))
    }
}

/// The chapters by index; those of one index stay in order.
pub open spec fn ordered(chapters: Seq<ChapterAnalysisView>) -> Seq<ChapterAnalysisView>
    decreases chapters.len(),
{
    if chapters.len() == 0 {
        seq![]
    } else {
        placed(chapters[0], ordered(chapters.skip(1)))
    }
}

/// The chapters with the analysis of one of them: it takes the place of the first with its index,
/// else it is added and the chapters are put in order.
pub open spec fn upserted(
    chapters: Seq<ChapterAnalysisView>,
    c: ChapterAnalysisView,
) -> Seq<ChapterAnalysisView> {
    match position(chapters, c.index) {
        Some(i) => chapters.update(i, c),
        None => ordered(chapters.push(c)),
    }
}

proof fn lemma_position(chapters: Seq<ChapterAnalysisView>, index: usize)
    ensures
        position(chapters, index) matches Some(i) ==> 0 <= i < chapters.len() && chapters[i].index
            == index && forall|k: int| 0 <= k < i ==> (#[trigger] chapters[k]).index != index,
        position(chapters, index) is None ==> forall|k: int|
            0 <= k < chapters.len() ==> (#[trigger] chapters[k]).index != index,
    decreases chapters.len(),
{
    if chapters.len() > 0 && chapters[0].index != index {
        let rest = chapters.skip(1);
        lemma_position(rest, index);
        assert forall|k: int| 0 < k < chapters.len() implies #[trigger] chapters[k] == rest[k
            - 1] by {}
    }
}

fn find_chapter(chapters: &Vec<ChapterDialogueAnalysis>, index: usize) -> (r: Option<usize>)
    ensures
        r matches Some(i) ==> i < chapters@.len() && position(analysis_views(chapters@), index)
            == Some(i as int),
        r is None ==> position(analysis_views(chapters@), index) is None,
{
    let ghost views = analysis_views(chapters@);
    let mut i: usize = 0;
    proof {
        lemma_position(views, index);
    }
    while i < chapters.len()
        invariant
            i <= chapters@.len(),
            views == analysis_views(chapters@),
            forall|k: int| 0 <= k < i ==> (#[trigger] views[k]).index != index,
            position(views, index) matches Some(p) ==> 0 <= p < views.len() && views[p].index
                == index && forall|k: int| 0 <= k < p ==> (#[trigger] views[k]).index != index,
            position(views, index) is None ==> forall|k: int|
                0 <= k < views.len() ==> (#[trigger] views[k]).index != index,
        decreases chapters@.len() - i,
    {
        assert(views[i as int].index == chapters@[i as int].chapter_index);
        if chapters[i].chapter_index == index {
            return Some(i);
        }
        i += 1;
    }
    None
}

/// Puts `c` before the first chapter whose index is not smaller.
fn place(chapters: &mut Vec<ChapterDialogueAnalysis>, c: ChapterDialogueAnalysis)
    ensures
        analysis_views(final(chapters)@) == placed(c@, analysis_views(old(chapters)@)),
{
    let ghost views = analysis_views(chapters@);
    let ghost v = c@;
    let mut i: usize = 0;
    assert(views.skip(0) =~= views);
    assert(views.take(0) + placed(v, views.skip(0)) =~= placed(v, views));
    while i < chapters.len() && chapters[i].chapter_index < c.chapter_index
        invariant
            i <= chapters@.len(),
            views == analysis_views(chapters@),
            v == c@,
            views.take(i as int) + placed(v, views.skip(i as int)) == placed(v, views),
        decreases chapters@.len() - i,
    {
        proof {
            let rest = views.skip(i as int);
            assert(rest[0] == views[i as int]);
            assert(views[i as int].index == chapters@[i as int].chapter_index);
            assert(rest.skip(1) =~= views.skip(i + 1));
            assert(views.take(i as int) + (seq![views[i as int]] + placed(v, views.skip(i + 1)))
                =~= views.take(i + 1) + placed(v, views.skip(i + 1)));
        }
        i += 1;
    }
    proof {
        let rest = views.skip(i as int);
        if i < chapters@.len() {
            assert(rest[0] == views[i as int]);
            assert(views[i as int].index == chapters@[i as int].chapter_index);
        }
        assert(placed(v, rest) == seq![v] + rest);
    }
    chapters.insert(i, c);
    assert(analysis_views(chapters@) =~= views.take(i as int) + (seq![v] + views.skip(i as int)));
}

/// Puts the chapters in order.
fn order(chapters: &mut Vec<ChapterDialogueAnalysis>)
    ensures
        analysis_views(final(chapters)@) == ordered(analysis_views(old(chapters)@)),
{
    let ghost all = analysis_views(chapters@);
    let mut sorted: Vec<ChapterDialogueAnalysis> = Vec::new();
    proof {
        assert(all.skip(all.len() as int) =~= seq![]);
        assert(analysis_views(sorted@) =~= seq![]);
        assert(all.take(all.len() as int) =~= all);
    }
    while chapters.len() > 0
        invariant
            chapters@.len() <= all.len(),
            analysis_views(chapters@) == all.take(chapters@.len() as int),
            analysis_views(sorted@) == ordered(all.skip(chapters@.len() as int)),
        decreases chapters@.len(),
    {
        let ghost n = chapters@.len();
        let ghost before = analysis_views(chapters@);
        match chapters.pop() {
            Some(c) => {
                proof {
                    assert(before[n - 1] == c@);
                    assert(all.skip(n - 1)[0] == c@);
                    assert(all.skip(n - 1).skip(1) =~= all.skip(n as int));
                    assert(analysis_views(chapters@) =~= all.take(n - 1));
                }
                place(&mut sorted, c);
            },
            None => {},
        }
    }
    assert(all.skip(0) =~= all);
    std::mem::swap(chapters, &mut sorted);
}

/// Takes over the analysis of a chapter into a table.
pub fn upsert_chapter_analysis(
    table: &mut DialogueAnalysisTable,
    chapter_index: usize,
    chapter_title: String,
    dialogues: Vec<DialogueAnalysisEntry>,
)
    ensures
        analysis_views(final(table).chapters@) == upserted(
            analysis_views(old(table).chapters@),
            (ChapterAnalysisView {
                index: chapter_index,
                title: chapter_title@,
                dialogues: dialogues@,
            }),
        ),
        final(table).schema_version == old(table).schema_version,
        final(table).file_path == old(table).file_path,
        final(table).novel_title == old(table).novel_title,
        final(table).generated_at == old(table).generated_at,
{
    let ghost before = analysis_views(table.chapters@);
    let c = ChapterDialogueAnalysis { chapter_index, chapter_title, dialogues };
    let ghost v = c@;
    match find_chapter(&table.chapters, chapter_index) {
        Some(i) => {
            table.chapters.set(i, c);
            assert(analysis_views(table.chapters@) =~= before.update(i as int, v));
        },
        None => {
            table.chapters.push(c);
            assert(analysis_views(table.chapters@) =~= before.push(v));
            order(&mut table.chapters);
        },
    }
}

/// Whether the chapters are in order, each index once.
pub open spec fn strictly_ordered(chapters: Seq<ChapterAnalysisView>) -> bool {
    forall|i: int, j: int|
        0 <= i < j < chapters.len() ==> (#[trigger] chapters[i]).index < (
        #[trigger] chapters[j]).index
}

proof fn lemma_placed(c: ChapterAnalysisView, chapters: Seq<ChapterAnalysisView>)
    requires
        strictly_ordered(chapters),
        forall|i: int| 0 <= i < chapters.len() ==> (#[trigger] chapters[i]).index != c.index,
    ensures
        strictly_ordered(placed(c, chapters)),
        placed(c, chapters).to_multiset() == chapters.to_multiset().insert(c),
        placed(c, chapters).len() == chapters.len() + 1,
        forall|i: int|
            0 <= i < placed(c, chapters).len() ==> (#[trigger] placed(c, chapters)[i]) == c
                || chapters.contains(placed(c, chapters)[i]),
    decreases chapters.len(),
{
    broadcast use vstd::seq_lib::group_to_multiset_ensures;

    let all = placed(c, chapters);
    if chapters.len() == 0 || c.index <= chapters[0].index {
        assert forall|i: int| 0 <= i < all.len() implies (#[trigger] all[i]) == c
            || chapters.contains(all[i]) by {
            if i > 0 {
                assert(all[i] == chapters[i - 1]);
            }
        }
        assert(strictly_ordered(all)) by {
            assert forall|i: int, j: int| 0 <= i < j < all.len() implies (#[trigger] all[i]).index
                < (#[trigger] all[j]).index by {
                assert(all[j] == chapters[j - 1]);
                if i > 0 {
                    assert(all[i] == chapters[i - 1]);
                } else if j > 1 {
                    assert(chapters[0].index < chapters[j - 1].index);
                }
            }
        }
        assert(all =~= seq![c] + chapters);
        vstd::seq_lib::lemma_multiset_commutative(seq![c], chapters);
        assert(seq![c].to_multiset() =~= vstd::multiset::Multiset::singleton(c)) by {
            assert(seq![c] =~= Seq::<ChapterAnalysisView>::empty().push(c));
        }
        assert(all.to_multiset() =~= chapters.to_multiset().insert(c));
    } else {
        let rest = chapters.skip(1);
        assert forall|i: int| 0 <= i < rest.len() implies (#[trigger] rest[i]).index != c.index by {
            assert(rest[i] == chapters[i + 1]);
        }
        lemma_placed(c, rest);
        let more = placed(c, rest);
        assert(all =~= seq![chapters[0]] + more);
        assert forall|i: int| 0 <= i < all.len() implies (#[trigger] all[i]) == c
            || chapters.contains(all[i]) by {
            if i == 0 {
                assert(all[0] == chapters[0]);
            } else {
                assert(all[i] == more[i - 1]);
                if more[i - 1] != c {
                    let k = rest.index_of(more[i - 1]);
                    assert(rest[k] == chapters[k + 1]);
                }
            }
        }
        assert(strictly_ordered(all)) by {
            assert forall|i: int, j: int| 0 <= i < j < all.len() implies (#[trigger] all[i]).index
                < (#[trigger] all[j]).index by {
                assert(all[j] == more[j - 1]);
                if i > 0 {
                    assert(all[i] == more[i - 1]);
                } else if more[j - 1] != c {
                    let k = rest.index_of(more[j - 1]);
                    assert(rest[k] == chapters[k + 1]);
                    assert(chapters[0].index < chapters[k + 1].index);
                }
            }
        }
        vstd::seq_lib::lemma_multiset_commutative(seq![chapters[0]], more);
        vstd::seq_lib::lemma_multiset_commutative(seq![chapters[0]], rest);
        assert(chapters =~= seq![chapters[0]] + rest);
        assert(all.to_multiset() =~= chapters.to_multiset().insert(c));
    }
}

proof fn lemma_ordered(chapters: Seq<ChapterAnalysisView>)
    requires
        forall|i: int, j: int|
            0 <= i < j < chapters.len() ==> (#[trigger] chapters[i]).index != (
            #[trigger] chapters[j]).index,
    ensures
        strictly_ordered(ordered(chapters)),
        ordered(chapters).to_multiset() == chapters.to_multiset(),
        ordered(chapters).len() == chapters.len(),
        forall|i: int|
            0 <= i < ordered(chapters).len() ==> chapters.contains(#[trigger] ordered(chapters)[i]),
    decreases chapters.len(),
{
    broadcast use vstd::seq_lib::group_to_multiset_ensures;

    if chapters.len() > 0 {
        let c = chapters[0];
        let rest = chapters.skip(1);
        assert forall|i: int, j: int| 0 <= i < j < rest.len() implies (#[trigger] rest[i]).index
            != (#[trigger] rest[j]).index by {
            assert(rest[i] == chapters[i + 1] && rest[j] == chapters[j + 1]);
        }
        lemma_ordered(rest);
        let sorted = ordered(rest);
        assert forall|i: int| 0 <= i < sorted.len() implies (#[trigger] sorted[i]).index
            != c.index by {
            let k = rest.index_of(sorted[i]);
            assert(rest[k] == chapters[k + 1]);
        }
        lemma_placed(c, sorted);
        assert forall|i: int| 0 <= i < ordered(chapters).len() implies chapters.contains(
            #[trigger] ordered(chapters)[i],
        ) by {
            let x = ordered(chapters)[i];
            if x != c {
                let k = sorted.index_of(x);
                let m = rest.index_of(sorted[k]);
                assert(rest[m] == chapters[m + 1]);
            } else {
                assert(chapters[0] == c);
            }
        }
        vstd::seq_lib::lemma_multiset_commutative(seq![c], rest);
        assert(chapters =~= seq![c] + rest);
        assert(seq![c].to_multiset() =~= vstd::multiset::Multiset::singleton(c)) by {
            assert(seq![c] =~= Seq::<ChapterAnalysisView>::empty().push(c));
        }
        assert(ordered(chapters).to_multiset() =~= chapters.to_multiset());
    }
}

/// A table in order stays in order when a chapter is taken over, holds that chapter with its
/// analysis, and keeps every other chapter as it was; taking the chapter over again changes
/// nothing.
pub proof fn law_upserting_keeps_the_table(
    chapters: Seq<ChapterAnalysisView>,
    c: ChapterAnalysisView,
)
    requires
        strictly_ordered(chapters),
    ensures
        strictly_ordered(upserted(chapters, c)),
        upserted(chapters, c).contains(c),
        forall|i: int|
            0 <= i < chapters.len() && chapters[i].index != c.index ==> upserted(
                chapters,
                c,
            ).contains(#[trigger] chapters[i]),
        forall|i: int|
            0 <= i < upserted(chapters, c).len() ==> (#[trigger] upserted(chapters, c)[i]) == c
                || chapters.contains(upserted(chapters, c)[i]),
        upserted(upserted(chapters, c), c) == upserted(chapters, c),
{
    broadcast use vstd::seq_lib::group_to_multiset_ensures;

    let all = upserted(chapters, c);
    lemma_position(chapters, c.index);
    match position(chapters, c.index) {
        Some(p) => {
            assert(all[p] == c);
            assert forall|i: int| 0 <= i < chapters.len() && chapters[i].index
                != c.index implies all.contains(#[trigger] chapters[i]) by {
                assert(all[i] == chapters[i]);
            }
            assert forall|i: int| 0 <= i < all.len() implies (#[trigger] all[i]) == c
                || chapters.contains(all[i]) by {
                if i != p {
                    assert(all[i] == chapters[i]);
                }
            }
            assert(strictly_ordered(all)) by {
                assert forall|i: int, j: int| 0 <= i < j < all.len() implies (
                #[trigger] all[i]).index < (#[trigger] all[j]).index by {
                    assert(chapters[i].index < chapters[j].index);
                }
            }
        },
        None => {
            let more = chapters.push(c);
            assert forall|i: int, j: int| 0 <= i < j < more.len() implies (
            #[trigger] more[i]).index != (#[trigger] more[j]).index by {
                if j < chapters.len() {
                    assert(chapters[i].index < chapters[j].index);
                }
            }
            lemma_ordered(more);
            assert(more[more.len() - 1] == c);
            assert(more.contains(c));
            assert(all.to_multiset().count(c) > 0);
            assert forall|i: int| 0 <= i < chapters.len() && chapters[i].index
                != c.index implies all.contains(#[trigger] chapters[i]) by {
                assert(more[i] == chapters[i]);
                assert(more.contains(chapters[i]));
                assert(all.to_multiset().count(chapters[i]) > 0);
            }
            assert forall|i: int| 0 <= i < all.len() implies (#[trigger] all[i]) == c
                || chapters.contains(all[i]) by {
                let k = more.index_of(all[i]);
                if k < chapters.len() {
                    assert(chapters[k] == all[i]);
                }
            }
        },
    }
    lemma_position(all, c.index);
    let k = all.index_of(c);
    assert(all[k] == c);
    match position(all, c.index) {
        Some(p) => {
            if p < k {
                assert(all[p].index < all[k].index);
            } else if k < p {
                assert(all[k].index < all[p].index);
            }
            assert(all.update(p, c) =~= all);
        },
        None => {},
    }
}

/// Whether the speaker of a saved entry is that of the batch with its index: a quotation with the
/// same text.
pub open spec fn applies(batches: Seq<BatchView>, entry: DialogueAnalysisEntry) -> bool {
    entry.batch_index < batches.len() && batches[entry.batch_index as int].is_dialogue
        && batches[entry.batch_index as int].text == entry.text@
}

/// The speakers that saved entries give the batches, a later entry in place of an earlier one.
pub open spec fn restored(
    batches: Seq<BatchView>,
    saved: Seq<DialogueAnalysisEntry>,
) -> Seq<Option<SpeakerResult>>
    decreases saved.len(),
{
    if saved.len() == 0 {
        Seq::new(batches.len(), |i: int| None)
    } else {
        let before = restored(batches, saved.drop_last());
        let last = saved.last();
        if applies(batches, last) {
            before.update(last.batch_index as int, Some(last.speaker))
        } else {
            before
        }
    }
}

/// How many saved entries apply.
pub open spec fn restored_count(
    batches: Seq<BatchView>,
    saved: Seq<DialogueAnalysisEntry>,
) -> nat
    decreases saved.len(),
{
    if saved.len() == 0 {
        0
    } else {
        restored_count(batches, saved.drop_last()) + if applies(batches, saved.last()) {
            1nat
        } else {
            0nat
        }
    }
}

/// The speakers that saved entries give the batches, and how many of the entries apply.
pub fn restore_speakers(
    batches: &Vec<BatchData>,
    saved: &Vec<DialogueAnalysisEntry>,
) -> (r: (Vec<Option<SpeakerResult>>, usize))
    ensures
        r.0@ == restored(batch_views(batches@), saved@),
        r.0@.len() == batches@.len(),
        r.1 == restored_count(batch_views(batches@), saved@),
{
    let ghost views = batch_views(batches@);
    let n = batches.len();
    let mut speakers: Vec<Option<SpeakerResult>> = Vec::new();
    let mut k: usize = 0;
    while k < n
        invariant
            k <= n,
            speakers@ == Seq::new(k as nat, |i: int| None::<SpeakerResult>),
        decreases n - k,
    {
        speakers.push(None);
        k += 1;
        assert(speakers@ =~= Seq::new(k as nat, |i: int| None::<SpeakerResult>));
    }
    let mut loaded: usize = 0;
    let mut i: usize = 0;
    assert(saved@.take(0) =~= seq![]);
    assert(speakers@ =~= restored(views, saved@.take(0)));
    while i < saved.len()
        invariant
            i <= saved@.len(),
            n == batches@.len(),
            views == batch_views(batches@),
            speakers@.len() == n,
            speakers@ == restored(views, saved@.take(i as int)),
            loaded == restored_count(views, saved@.take(i as int)),
            loaded <= i,
        decreases saved@.len() - i,
    {
        let entry = &saved[i];
        proof {
            assert(saved@.take(i + 1).drop_last() =~= saved@.take(i as int));
            assert(saved@.take(i + 1).last() == *entry);
        }
        if entry.batch_index < n {
            let batch = &batches[entry.batch_index];
            assert(views[entry.batch_index as int] == batch@);
            if batch.is_dialogue && same(batch.text.as_str(), entry.text.as_str()) {
                speakers.set(entry.batch_index, Some(entry.speaker.clone()));
                loaded += 1;
            }
        }
        i += 1;
    }
    assert(saved@.take(i as int) =~= saved@);
    (speakers, loaded)
}

/// How many quotations of a chapter have neither a tag nor a speaker.
pub fn count_unanalyzed(
    batches: &Vec<BatchData>,
    speakers: &Vec<Option<SpeakerResult>>,
) -> (r: usize)
    requires
        speakers@.len() == batches@.len(),
    ensures
        r == open_inputs(batch_views(batches@), speakers@, batches@.len()).len(),
{
    let open = dialogue_inputs(batches, speakers);
    assert(input_views(open@).len() == open@.len());
    open.len()
}

/// The entries for the speakers of the first `n` batches.
pub open spec fn entries_for(
    batches: Seq<BatchData>,
    speakers: Seq<Option<SpeakerResult>>,
    n: nat,
) -> Seq<DialogueAnalysisEntry>
    decreases n,
{
    if n == 0 {
        seq![]
    } else {
        let before = entries_for(batches, speakers, (n - 1) as nat);
        match speakers[n - 1] {
            Some(speaker) => before.push(
                DialogueAnalysisEntry {
                    batch_index: (n - 1) as usize,
                    text: batches[n - 1].text,
                    speaker,
                },
            ),
            None => before,
        }
    }
}

/// The entries to save for the speakers of a chapter, by index.
pub fn analysis_entries(
    batches: &Vec<BatchData>,
    speakers: &Vec<Option<SpeakerResult>>,
) -> (r: Vec<DialogueAnalysisEntry>)
    requires
        speakers@.len() == batches@.len(),
    ensures
        r@ == entries_for(batches@, speakers@, batches@.len()),
{
    let mut r: Vec<DialogueAnalysisEntry> = Vec::new();
    let mut i: usize = 0;
    while i < batches.len()
        invariant
            i <= batches@.len(),
            speakers@.len() == batches@.len(),
            r@ == entries_for(batches@, speakers@, i as nat),
        decreases batches@.len() - i,
    {
        if let Some(speaker) = &speakers[i] {
            r.push(
                DialogueAnalysisEntry {
                    batch_index: i,
                    text: batches[i].text.clone(),
                    speaker: speaker.clone(),
                },
            );
        }
        i += 1;
    }
    r
}

proof fn lemma_restored_len(batches: Seq<BatchView>, saved: Seq<DialogueAnalysisEntry>)
    ensures
        restored(batches, saved).len() == batches.len(),
    decreases saved.len(),
{
    if saved.len() > 0 {
        lemma_restored_len(batches, saved.drop_last());
    }
}

proof fn lemma_restored_entries(
    batches: Seq<BatchData>,
    speakers: Seq<Option<SpeakerResult>>,
    n: nat,
)
    requires
        n <= batches.len() <= usize::MAX,
        speakers.len() == batches.len(),
        forall|i: int|
            0 <= i < batches.len() && (#[trigger] speakers[i]) is Some ==> batches[i].is_dialogue,
    ensures
        restored(batch_views(batches), entries_for(batches, speakers, n)) == Seq::new(
            batches.len(),
            |i: int|
                if i < n {
                    speakers[i]
                } else {
                    None
                },
        ),
    decreases n,
{
    let views = batch_views(batches);
    let entries = entries_for(batches, speakers, n);
    let now = Seq::new(batches.len(), |i: int| if i < n { speakers[i] } else { None });
    if n == 0 {
        assert(restored(views, entries) =~= now);
    } else {
        lemma_restored_entries(batches, speakers, (n - 1) as nat);
        let before = entries_for(batches, speakers, (n - 1) as nat);
        lemma_restored_len(views, before);
        match speakers[n - 1] {
            Some(speaker) => {
                assert(entries.drop_last() =~= before);
                assert(views[n - 1] == batches[n - 1]@);
                assert(applies(views, entries.last()));
            },
            None => {},
        }
        assert(restored(views, entries) =~= now);
    }
}

/// What is saved of a chapter is what is found again: restoring the entries that were made of the
/// speakers of quotations gives those speakers.
pub proof fn law_saved_speakers_are_restored(
    batches: Seq<BatchData>,
    speakers: Seq<Option<SpeakerResult>>,
)
    requires
        batches.len() <= usize::MAX,
        speakers.len() == batches.len(),
        forall|i: int|
            0 <= i < batches.len() && (#[trigger] speakers[i]) is Some ==> batches[i].is_dialogue,
    ensures
        restored(batch_views(batches), entries_for(batches, speakers, batches.len())) == speakers,
{
    lemma_restored_entries(batches, speakers, batches.len());
    assert(Seq::new(
        batches.len(),
        |i: int| if i < batches.len() { speakers[i] } else { None },
    ) =~= speakers);
}

/// The table that an analysis of a book starts with: what was saved before, or no chapter, with
/// the book and the time of this analysis.
pub fn begin_table(
    saved: Option<DialogueAnalysisTable>,
    file_path: &str,
    novel_title: &str,
    now: u64,
) -> (r: DialogueAnalysisTable)
    ensures
        r.schema_version == 1,
        r.file_path@ == file_path@,
        r.novel_title@ == novel_title@,
        r.generated_at == now,
        match saved {
            Some(t) => r.chapters == t.chapters,
            None => r.chapters@.len() == 0,
        },
{
    let chapters = match saved {
        Some(t) => t.chapters,
        None => Vec::new(),
    };
    DialogueAnalysisTable {
        schema_version: 1,
        file_path: crate::text::copy(file_path),
        novel_title: crate::text::copy(novel_title),
        generated_at: now,
        chapters,
    }
}

/// Whether a chapter with that index is among the chapters.
pub open spec fn analyzed(chapters: Seq<ChapterAnalysisView>, index: int) -> bool {
    exists|i: int| 0 <= i < chapters.len() && (#[trigger] chapters[i]).index == index
}

/// The position of the last chapter with that index: where one index occurs twice the later
/// analysis holds.
pub fn saved_chapter(chapters: &Vec<ChapterDialogueAnalysis>, index: usize) -> (r: Option<usize>)
    ensures
        r matches Some(p) ==> p < chapters@.len() && analysis_views(chapters@)[p as int].index
            == index && forall|k: int|
            p < k < chapters@.len() ==> (#[trigger] analysis_views(chapters@)[k]).index != index,
        r is None <==> !analyzed(analysis_views(chapters@), index as int),
{
    let ghost views = analysis_views(chapters@);
    let mut i: usize = chapters.len();
    while i > 0
        invariant
            i <= chapters@.len(),
            views == analysis_views(chapters@),
            forall|k: int| i <= k < chapters@.len() ==> (#[trigger] views[k]).index != index,
        decreases i,
    {
        i -= 1;
        assert(views[i as int].index == chapters@[i as int].chapter_index);
        if chapters[i].chapter_index == index {
            return Some(i);
        }
    }
    None
}

/// How many chapters from the first on are analyzed without a gap, of `total`.
pub fn analyzed_count(chapters: &Vec<ChapterDialogueAnalysis>, total: usize) -> (r: usize)
    ensures
        r <= total,
        forall|i: int| 0 <= i < r ==> #[trigger] analyzed(analysis_views(chapters@), i),
        r < total ==> !analyzed(analysis_views(chapters@), r as int),
{
    let mut count: usize = 0;
    while count < total
        invariant
            count <= total,
            forall|i: int| 0 <= i < count ==> #[trigger] analyzed(analysis_views(chapters@), i),
        decreases total - count,
    {
        if saved_chapter(chapters, count).is_none() {
            return count;
        }
        count += 1;
    }
    count
}

/// A batch gets the speaker of the last saved entry that has its index and its text, where it is a
/// quotation; a batch for which there is no such entry gets none.
pub proof fn law_the_last_saved_speaker_counts(
    batches: Seq<BatchView>,
    saved: Seq<DialogueAnalysisEntry>,
    i: int,
    k: int,
)
    requires
        0 <= i < batches.len(),
        -1 <= k < saved.len(),
        k >= 0 ==> saved[k].batch_index == i && batches[i].is_dialogue && saved[k].text@
            == batches[i].text,
        forall|m: int|
            k < m < saved.len() && (#[trigger] saved[m]).batch_index == i ==> !batches[i].is_dialogue
                || saved[m].text@ != batches[i].text,
    ensures
        restored(batches, saved)[i] == if k >= 0 {
            Some(saved[k].speaker)
        } else {
            None
        },
    decreases saved.len(),
{
    lemma_restored_len(batches, saved);
    if saved.len() > 0 {
        let front = saved.drop_last();
        let n = front.len() as int;
        lemma_restored_len(batches, front);
        assert(saved[n] == saved.last());
        if k < n {
            assert forall|m: int|
                k < m < front.len() && (#[trigger] front[m]).batch_index
                    == i implies !batches[i].is_dialogue || front[m].text@ != batches[i].text by {
                assert(front[m] == saved[m]);
            }
            law_the_last_saved_speaker_counts(batches, front, i, k);
        }
    }
}

/// A saved entry counts where it is for a quotation that has its text.
pub proof fn law_saved_entries_are_counted(
    batches: Seq<BatchView>,
    saved: Seq<DialogueAnalysisEntry>,
)
    ensures
        restored_count(batches, saved) == saved.filter(
            |e: DialogueAnalysisEntry|
                e.batch_index < batches.len() && batches[e.batch_index as int].is_dialogue
                    && batches[e.batch_index as int].text == e.text@,
        ).len(),
    decreases saved.len(),
{
    reveal(Seq::filter);
    if saved.len() > 0 {
        law_saved_entries_are_counted(batches, saved.drop_last());
    }
}

/// What is saved of a chapter are its speakers, all of them and in order, each with the index and the
/// text of its batch.
pub proof fn law_all_speakers_are_saved(
    batches: Seq<BatchData>,
    speakers: Seq<Option<SpeakerResult>>,
    n: nat,
)
    requires
        n <= speakers.len(),
    ensures
        entries_for(batches, speakers, n) == positions(n, |i: int| speakers[i] is Some).map_values(
            |i: int|
                DialogueAnalysisEntry {
                    batch_index: i as usize,
                    text: batches[i].text,
                    speaker: speakers[i]->0,
                },
        ),
    decreases n,
{
    let has = |i: int| speakers[i] is Some;
    let f = |i: int|
        DialogueAnalysisEntry {
            batch_index: i as usize,
            text: batches[i].text,
            speaker: speakers[i]->0,
        };
    if n > 0 {
        let m = (n - 1) as nat;
        law_all_speakers_are_saved(batches, speakers, m);
        lemma_positions_step(m, has);
        if has(m as int) {
            let at = positions(m, has);
            assert(at.push(m as int).map_values(f) =~= at.map_values(f).push(f(m as int)));
        }
    } else {
        lemma_positions(0, has);
        assert(positions(0, has).map_values(f) =~= seq![]) by {
            if positions(0, has).len() > 0 {
                assert(0 <= positions(0, has)[0] < 0);
            }
        }
    }
}

/// When a chapter is taken over into chapters in the order of their indices, they stay in that order,
/// the chapter is there once, and where its index was among them their number stays.
pub proof fn law_chapters_stay_in_order(chapters: Seq<ChapterAnalysisView>, c: ChapterAnalysisView)
    requires
        forall|i: int, j: int|
            0 <= i < j < chapters.len() ==> (#[trigger] chapters[i]).index < (
            #[trigger] chapters[j]).index,
    ensures
        forall|i: int, j: int|
            0 <= i < j < upserted(chapters, c).len() ==> (#[trigger] upserted(chapters, c)[i]).index
                < (#[trigger] upserted(chapters, c)[j]).index,
        upserted(chapters, c).contains(c),
        analyzed(chapters, c.index as int) ==> upserted(chapters, c).len() == chapters.len(),
        !analyzed(chapters, c.index as int) ==> upserted(chapters, c).to_multiset()
            == chapters.to_multiset().insert(c),
{
    broadcast use vstd::seq_lib::group_to_multiset_ensures;

    assert(strictly_ordered(chapters));
    law_upserting_keeps_the_table(chapters, c);
    lemma_position(chapters, c.index);
    assert(strictly_ordered(upserted(chapters, c)));
    match position(chapters, c.index) {
        Some(p) => {
            assert(chapters[p].index == c.index);
        },
        None => {
            let more = chapters.push(c);
            assert forall|i: int, j: int| 0 <= i < j < more.len() implies (#[trigger] more[i]).index
                != (#[trigger] more[j]).index by {
                if j < chapters.len() {
                    assert(chapters[i].index < chapters[j].index);
                } else {
                    assert(chapters[i].index != c.index);
                }
            }
            lemma_ordered(more);
        },
    }
}

/// The values of analysed chapters are those of each, in their order, with their index, their title
/// and their speakers.
pub proof fn law_analyses_hold_every_part(v: Seq<ChapterDialogueAnalysis>, i: int)
    ensures
        analysis_views(v).len() == v.len(),
        0 <= i < v.len() ==> {
            &&& analysis_views(v)[i].index == v[i].chapter_index
            &&& analysis_views(v)[i].title == v[i].chapter_title@
            &&& analysis_views(v)[i].dialogues == v[i].dialogues@
        },
{
}

} // verus!
