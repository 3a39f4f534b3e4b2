//! The titles of tasks: from file names, and from what a language model answers.

use crate::ai::{first_key, opt_text, pick_api_key, AiDialogueConfig};
use crate::path::{file_name, file_name_of, file_stem, file_stem_of};
use crate::patterns::{group_views, marked_title_at, match_groups, TITLE_PATTERN};
use crate::search::{ends_with, same, starts_with, strip_prefix};
use crate::text::{
    blank, copy, law_trimming_takes_the_ends, lemma_trimmed, lower_case, lower_cased, trim,
    trim_class, trimmed, trimmed_of, white_space, CharClass,
};
use vstd::prelude::*;

verus! {

/// What a language model is told to do with a file name.
pub const TITLE_INSTRUCTION: &'static str =
    "You extract the book title from a file name. Return JSON only: {\"title\":\"...\"}. Do not include author, source site, file extension, quality tags, or commentary.";

/// What a path is called: the name of the file, or the path where it has none.
pub open spec fn called(path: Seq<char>) -> Seq<char> {
    match file_name_of(path) {
        Some(n) => n,
        None => path,
    }
}

/// What a path is called.
pub fn name_of_path(path: &str) -> (r: String)
    ensures
        r@ == called(path@),
{
    match file_name(path) {
        Some(n) => n,
        None => copy(path),
    }
}

/// The first title in title marks at or behind position `i`.
pub open spec fn marked_title_from(s: Seq<char>, i: int) -> Option<Seq<char>>
    decreases s.len() - i,
{
    if i >= s.len() {
        None
    } else if marked_title_at(s, i) is Some {
        marked_title_at(s, i)
    } else {
        marked_title_from(s, i + 1)
    }
}

proof fn lemma_marked_title(s: Seq<char>, from: int, i: int)
    requires
        0 <= from <= i,
        forall|j: int| 0 <= j < i ==> #[trigger] marked_title_at(s, j) is None,
        marked_title_at(s, i) is Some || i >= s.len(),
    ensures
        marked_title_from(s, from) == if i < s.len() {
            marked_title_at(s, i)
        } else {
            None
        },
    decreases i - from,
{
    if from < i && from < s.len() {
        assert(marked_title_at(s, from) is None);
        lemma_marked_title(s, from + 1, i);
    }
}

/// The title of a book by its path: what stands in title marks in its name, else its name.
pub open spec fn fallback_title(path: Seq<char>) -> Seq<char> {
    match marked_title_from(called(path), 0) {
        Some(t) => if trimmed(t).len() > 0 {
            trimmed(t)
        } else {
            called(path)
        },
        None => called(path),
    }
}

/// The title of a book by its path.
pub fn fallback_task_title(path: &str) -> (r: String)
    ensures
        r@ == fallback_title(path@),
{
    let name = name_of_path(path);
    let groups = match_groups(TITLE_PATTERN, name.as_str());
    proof {
        match &groups {
            Some(g) => {
                let i = choose|i: int|
                    #[trigger] marked_title_at(name@, i) is Some && group_views(g@)[1]
                        == marked_title_at(name@, i) && forall|j: int|
                        0 <= j < i ==> #[trigger] marked_title_at(name@, j) is None;
                lemma_marked_title(name@, 0, i);
            },
            None => {
                assert forall|j: int| 0 <= j < name@.len() implies #[trigger] marked_title_at(
                    name@,
                    j,
                ) is None by {}
                lemma_marked_title(name@, 0, name@.len() as int);
            },
        }
    }
    if let Some(g) = &groups {
        assert(group_views(g@)[1] == opt_text(g@[1]));
        if let Some(t) = &g[1] {
            let title = trim(t.as_str());
            if title.as_str().unicode_len() > 0 {
                return title;
            }
        }
    }
    name
}

/// A title without white space and quotation marks around it.
pub open spec fn bare_title(value: Seq<char>) -> Seq<char> {
    trimmed(trimmed_of(trimmed(value), CharClass::Quote))
}

/// A title as it is shown: without what stands around it and without the extension of a book; the
/// fallback where nothing is left.
pub open spec fn normalized_title(value: Seq<char>, fallback: Seq<char>) -> Seq<char> {
    let t = bare_title(value);
    let lower = lower_cased(t);
    if t.len() == 0 {
        fallback
    } else if ".epub"@.is_suffix_of(lower) || ".txt"@.is_suffix_of(lower) {
        match file_stem_of(t) {
            Some(stem) => if trimmed(stem).len() > 0 {
                trimmed(stem)
            } else {
                fallback
            },
            None => fallback,
        }
    } else {
        t
    }
}

/// A title as it is shown.
pub fn normalize_task_title(value: &str, fallback: &str) -> (r: String)
    ensures
        r@ == normalized_title(value@, fallback@),
{
    let inner = trim_class(trim(value).as_str(), CharClass::Quote);
    let t = trim(inner.as_str());
    if t.as_str().unicode_len() == 0 {
        return copy(fallback);
    }
    let lower = lower_case(t.as_str());
    if ends_with(lower.as_str(), ".epub") || ends_with(lower.as_str(), ".txt") {
        if let Some(stem) = file_stem(t.as_str()) {
            let s = trim(stem.as_str());
            if s.as_str().unicode_len() > 0 {
                return s;
            }
        }
        return copy(fallback);
    }
    t
}

/// A title as it is shown is empty only where the fallback is.
pub proof fn law_titles_are_not_empty(value: Seq<char>, fallback: Seq<char>)
    requires
        fallback.len() > 0,
    ensures
        normalized_title(value, fallback).len() > 0,
{
}

/// What serde_json finds under a key of the object that a text holds, as text; none where the text
/// is not JSON, not an object or without the key.
pub uninterp spec fn json_member(text: Seq<char>, key: Seq<char>) -> Option<Seq<char>>;

/// The first item of the array that serde_json reads in a text, as text; none where the text is not
/// JSON, not an array or an empty one.
pub uninterp spec fn json_first(text: Seq<char>) -> Option<Seq<char>>;

/// The string that serde_json reads in a text; none where the text is not JSON or not a string.
pub uninterp spec fn json_string(text: Seq<char>) -> Option<Seq<char>>;

/// `serde_json::from_str`, `Value::get` and `Value::to_string`: what stands under a key of an
/// object.
#[verifier::external_body]
fn read_json_member(text: &str, key: &str) -> (r: Option<String>)
    ensures
        opt_text(r) == json_member(text@, key@),
{
    let value = serde_json::from_str::<serde_json::Value>(text).ok()?;
    Some(value.get(key)?.to_string())
}

/// `serde_json::from_str`, `Value::as_array` and `Value::to_string`: the first item of an array.
#[verifier::external_body]
fn read_json_first(text: &str) -> (r: Option<String>)
    ensures
        opt_text(r) == json_first(text@),
{
    let value = serde_json::from_str::<serde_json::Value>(text).ok()?;
    Some(value.as_array()?.first()?.to_string())
}

/// `serde_json::from_str` and `Value::as_str`: a string.
#[verifier::external_body]
fn read_json_string(text: &str) -> (r: Option<String>)
    ensures
        opt_text(r) == json_string(text@),
{
    let value = serde_json::from_str::<serde_json::Value>(text).ok()?;
    Some(value.as_str()?.to_string())
}

/// What an answer says, without the fence of a code block around it.
pub open spec fn unfenced(content: Seq<char>) -> Seq<char> {
    let text = trimmed(content);
    if "```"@.is_prefix_of(text) {
        let inner = trimmed(trimmed_of(text, CharClass::Backtick));
        if "json"@.is_prefix_of(inner) {
            trimmed(inner.skip("json"@.len() as int))
        } else {
            inner
        }
    } else {
        text
    }
}

/// What an answer says, without the fence of a code block around it.
pub fn without_fence(content: &str) -> (r: String)
    ensures
        r@ == unfenced(content@),
{
    let text = trim(content);
    if starts_with(text.as_str(), "```") {
        let inner = trim(trim_class(text.as_str(), CharClass::Backtick).as_str());
        match strip_prefix(inner.as_str(), "json") {
            Some(rest) => trim(rest.as_str()),
            None => inner,
        }
    } else {
        text
    }
}

/// The title that an answer gives, where `member` is the title that stands in it as JSON; none
/// where it is empty.
pub open spec fn chosen_title(
    text: Seq<char>,
    member: Option<Seq<char>>,
    fallback: Seq<char>,
) -> Option<Seq<char>> {
    let plain = normalized_title(text, fallback);
    if member matches Some(m) && normalized_title(m, fallback).len() > 0 {
        Some(normalized_title(member->0, fallback))
    } else if plain == fallback && text.len() == 0 {
        None
    } else {
        Some(plain)
    }
}

/// The title that an answer gives, where `member` is the title that stands in it as JSON.
pub fn choose_title(text: &str, member: Option<&str>, fallback: &str) -> (r: Option<String>)
    ensures
        opt_text(r) == chosen_title(
            text@,
            match member {
                Some(m) => Some(m@),
                None => None,
            },
            fallback@,
        ),
{
    if let Some(m) = member {
        let title = normalize_task_title(m, fallback);
        if title.as_str().unicode_len() > 0 {
            return Some(title);
        }
    }
    let title = normalize_task_title(text, fallback);
    if same(title.as_str(), fallback) && text.unicode_len() == 0 {
        None
    } else {
        Some(title)
    }
}

/// The title that stands in a text as JSON.
pub open spec fn json_title(text: Seq<char>) -> Option<Seq<char>> {
    match json_member(text, "title"@) {
        Some(m) => json_string(m),
        None => None,
    }
}

/// The title that an answer gives.
pub open spec fn answered_title(content: Seq<char>, fallback: Seq<char>) -> Option<Seq<char>> {
    chosen_title(unfenced(content), json_title(unfenced(content)), fallback)
}

/// The title that an answer gives: the one that stands in it as JSON, else the answer itself; none
/// where it is empty.
pub fn title_from_ai_response(content: &str, fallback: &str) -> (r: Option<String>)
    ensures
        opt_text(r) == answered_title(content@, fallback@),
{
    let text = without_fence(content);
    let member = match read_json_member(text.as_str(), "title") {
        Some(m) => read_json_string(m.as_str()),
        None => None,
    };
    match &member {
        Some(m) => choose_title(text.as_str(), Some(m.as_str()), fallback),
        None => choose_title(text.as_str(), None, fallback),
    }
}

/// What the first choice of a chat reply says: its content, or its reasoning where it has no
/// content; empty where there is neither.
pub open spec fn chat_says(reply: Seq<char>) -> Seq<char> {
    let message = match json_member(reply, "choices"@) {
        Some(choices) => match json_first(choices) {
            Some(choice) => json_member(choice, "message"@),
            None => None,
        },
        None => None,
    };
    let said = match message {
        Some(m) => match json_member(m, "content"@) {
            Some(c) => Some(c),
            None => json_member(m, "reasoning_content"@),
        },
        None => None,
    };
    match said {
        Some(s) => match json_string(s) {
            Some(t) => t,
            None => seq![],
        },
        None => seq![],
    }
}

/// What the first choice of a chat reply says.
pub fn chat_content(reply: &str) -> (r: String)
    ensures
        r@ == chat_says(reply@),
{
    if let Some(choices) = read_json_member(reply, "choices") {
        if let Some(choice) = read_json_first(choices.as_str()) {
            if let Some(message) = read_json_member(choice.as_str(), "message") {
                let said = match read_json_member(message.as_str(), "content") {
                    Some(c) => Some(c),
                    None => read_json_member(message.as_str(), "reasoning_content"),
                };
                if let Some(s) = said {
                    if let Some(t) = read_json_string(s.as_str()) {
                        return t;
                    }
                }
            }
        }
    }
    let r = String::new();
    assert(r@ =~= seq![]);
    r
}

/// The title of a book by what a language model replied about its name.
pub fn title_from_reply(reply: &str, fallback: &str) -> (r: String)
    ensures
        r@ == match answered_title(chat_says(reply@), fallback@) {
            Some(t) => t,
            None => fallback@,
        },
{
    let content = chat_content(reply);
    match title_from_ai_response(content.as_str(), fallback) {
        Some(t) => t,
        None => copy(fallback),
    }
}

/// What a language model is to be asked.
#[derive(Debug)]
pub struct TitleRequest {
    pub url: String,
    pub key: String,
    pub model: String,
    pub question: String,
}

/// Whether a language model can be asked: its address, a key and its name are known.
pub open spec fn can_ask(config: AiDialogueConfig) -> bool {
    &&& config.api_url is Some
    &&& config.api_key matches Some(k) && first_key(k@) is Some
    &&& config.model is Some
}

/// What a language model is to be asked about the title of a book; nothing where it is not to be
/// used or cannot be asked.
pub fn title_request(path: &str, use_ai: bool, config: &AiDialogueConfig) -> (r: Option<
    TitleRequest,
>)
    ensures
        r is Some <==> use_ai && can_ask(*config),
        r matches Some(q) ==> config.api_url == Some(q.url) && config.model == Some(q.model)
            && first_key(config.api_key->0@) == Some(q.key@) && q.question@ == "File name: "@ + called(
            path@,
        ),
{
    if !use_ai {
        return None;
    }
    let url = match &config.api_url {
        Some(u) => u.clone(),
        None => return None,
    };
    let key = match &config.api_key {
        Some(k) => match pick_api_key(k.as_str()) {
            Some(k) => k,
            None => return None,
        },
        None => return None,
    };
    let model = match &config.model {
        Some(m) => m.clone(),
        None => return None,
    };
    let mut question = copy("File name: ");
    question.append(name_of_path(path).as_str());
    Some(TitleRequest { url, key, model, question })
}

/// The title of a book by its path is the first title in title marks in its name, trimmed, where that
/// is not blank; and the name itself otherwise.
pub proof fn law_marked_titles_come_first(path: Seq<char>, i: int)
    requires
        0 <= i <= called(path).len(),
        forall|j: int| 0 <= j < i ==> #[trigger] marked_title_at(called(path), j) is None,
        i < called(path).len() ==> marked_title_at(called(path), i) is Some,
    ensures
        fallback_title(path) == if i < called(path).len() && !blank(
            marked_title_at(called(path), i)->0,
        ) {
            trimmed(marked_title_at(called(path), i)->0)
        } else {
            called(path)
        },
{
    lemma_marked_title(called(path), 0, i);
    if i < called(path).len() {
        lemma_trimmed(marked_title_at(called(path), i)->0);
    }
}

/// Books are called by the name of their file, and by their path only where that names no file.
pub proof fn law_books_are_called_by_their_file(path: Seq<char>)
    ensures
        file_name_of(path) matches Some(n) ==> called(path) == n,
        file_name_of(path) is None ==> called(path) == path,
{
}

/// Whether a character stands around titles: white space or a quotation mark.
pub open spec fn around_titles(c: char) -> bool {
    CharClass::Space.has(c) || CharClass::Quote.has(c)
}

/// White space and quotation marks around a title are not part of it.
pub proof fn law_titles_are_bare(
    a: Seq<char>,
    before: Seq<char>,
    title: Seq<char>,
    behind: Seq<char>,
    b: Seq<char>,
)
    requires
        blank(a),
        blank(b),
        forall|i: int| 0 <= i < before.len() ==> CharClass::Quote.has(#[trigger] before[i]),
        forall|i: int| 0 <= i < behind.len() ==> CharClass::Quote.has(#[trigger] behind[i]),
        title.len() > 0,
        !around_titles(title[0]),
        !around_titles(title[title.len() - 1]),
    ensures
        bare_title(a + (before + title + behind) + b) == title,
{
    let m = before + title + behind;
    assert forall|i: int| 0 <= i < m.len() implies CharClass::Quote.has(#[trigger] m[i])
        || m[i] == title[i - before.len()] by {
        if i < before.len() {
            assert(m[i] == before[i]);
        } else if i >= before.len() + title.len() {
            assert(m[i] == behind[i - before.len() - title.len()]);
        }
    }
    assert(!white_space(m[0])) by {
        if before.len() > 0 {
            assert(CharClass::Quote.has(before[0]));
            assert(m[0] == before[0]);
        } else {
            assert(m[0] == title[0]);
        }
    }
    assert(!white_space(m[m.len() - 1])) by {
        if behind.len() > 0 {
            assert(CharClass::Quote.has(behind[behind.len() - 1]));
            assert(m[m.len() - 1] == behind[behind.len() - 1]);
        } else {
            assert(m[m.len() - 1] == title[title.len() - 1]);
        }
    }
    assert forall|i: int| 0 <= i < a.len() implies CharClass::Space.has(#[trigger] a[i]) by {}
    assert forall|i: int| 0 <= i < b.len() implies CharClass::Space.has(#[trigger] b[i]) by {}
    law_trimming_takes_the_ends(a, m, b, CharClass::Space);
    law_trimming_takes_the_ends(before, title, behind, CharClass::Quote);
    let e = Seq::<char>::empty();
    law_trimming_takes_the_ends(e, title, e, CharClass::Space);
    assert(e + title + e =~= title);
}

/// A title as it is shown is the bare one; where that ends like the name of a book it is its stem,
/// trimmed; and where nothing is left it is the fallback.
pub proof fn law_titles_are_shown_without_extension(value: Seq<char>, fallback: Seq<char>)
    ensures
        ({
            let t = bare_title(value);
            let book = ".epub"@.is_suffix_of(lower_cased(t)) || ".txt"@.is_suffix_of(
                lower_cased(t),
            );
            let shown = normalized_title(value, fallback);
            &&& t.len() == 0 ==> shown == fallback
            &&& t.len() > 0 && !book ==> shown == t
            &&& t.len() > 0 && book ==> match file_stem_of(t) {
                Some(stem) => if blank(stem) {
                    shown == fallback
                } else {
                    shown == trimmed(stem)
                },
                None => shown == fallback,
            }
        }),
{
    if let Some(stem) = file_stem_of(bare_title(value)) {
        lemma_trimmed(stem);
    }
}

/// The title that stands in an answer as JSON comes first, unless nothing is left of it; else the
/// answer itself is the title; and only an empty answer gives none.
pub proof fn law_json_titles_come_first(
    text: Seq<char>,
    member: Option<Seq<char>>,
    fallback: Seq<char>,
)
    ensures
        ({
            let r = chosen_title(text, member, fallback);
            let told = member is Some && normalized_title(member->0, fallback).len() > 0;
            &&& told ==> r == Some(normalized_title(member->0, fallback))
            &&& !told && text.len() > 0 ==> r == Some(normalized_title(text, fallback))
            &&& !told && text.len() == 0 ==> r == if normalized_title(text, fallback) == fallback {
                None
            } else {
                Some(normalized_title(text, fallback))
            }
            &&& fallback.len() > 0 && member is Some ==> told
        }),
{
}

/// An answer in a code block, marked as JSON or not, says what stands in the block; any other answer
/// says what it is, trimmed.
pub proof fn law_fences_are_taken_away(a: Seq<char>, m: Seq<char>, b: Seq<char>)
    requires
        blank(a),
        blank(b),
        m.len() > 0,
        !white_space(m[0]) && m[0] != '`',
        !white_space(m[m.len() - 1]) && m[m.len() - 1] != '`',
    ensures
        unfenced("```json"@ + (a + m + b) + "```"@) == m,
        !"json"@.is_prefix_of(m) ==> unfenced("```"@ + (a + m + b) + "```"@) == m,
        unfenced(a + m + b) == m,
{
    reveal_strlit("```json");
    reveal_strlit("```");
    reveal_strlit("json");
    let e = Seq::<char>::empty();
    let ticks = "```"@;
    let json = "json"@;
    assert forall|i: int| 0 <= i < a.len() implies CharClass::Space.has(#[trigger] a[i]) by {}
    assert forall|i: int| 0 <= i < b.len() implies CharClass::Space.has(#[trigger] b[i]) by {}
    assert("```json"@ =~= ticks + json);
    let inner = a + m + b;
    law_trimming_takes_the_ends(a, m, b, CharClass::Space);
    assert(!ticks.is_prefix_of(m)) by {
        if ticks.is_prefix_of(m) {
            assert(m.subrange(0, 3)[0] == ticks[0]);
        }
    }
    // The block that is marked as JSON.
    let x = "```json"@ + inner + ticks;
    law_trimming_takes_the_ends(e, x, e, CharClass::Space);
    assert(e + x + e =~= x);
    assert(x.subrange(0, 3) =~= ticks);
    let named = json + a + m;
    lemma_unticked(json + inner);
    assert(ticks + (json + inner) + ticks =~= x);
    law_trimming_takes_the_ends(e, named, b, CharClass::Space);
    assert(e + named + b =~= json + inner);
    assert(named.subrange(0, 4) =~= json);
    assert(named.skip(4) =~= a + m + e);
    law_trimming_takes_the_ends(a, m, e, CharClass::Space);
    // The block that is not.
    if !json.is_prefix_of(m) {
        let y = ticks + inner + ticks;
        law_trimming_takes_the_ends(e, y, e, CharClass::Space);
        assert(e + y + e =~= y);
        assert(y.subrange(0, 3) =~= ticks);
        assert(!CharClass::Backtick.has(inner[0])) by {
            if a.len() > 0 {
                assert(white_space(a[0]));
                assert(inner[0] == a[0]);
            } else {
                assert(inner[0] == m[0]);
            }
        }
        lemma_unticked(inner);
    }
}

proof fn lemma_unticked(s: Seq<char>)
    requires
        s.len() > 0,
        s[0] != '`',
        s[s.len() - 1] != '`',
    ensures
        trimmed_of("```"@ + s + "```"@, CharClass::Backtick) == s,
{
    reveal_strlit("```");
    law_trimming_takes_the_ends("```"@, s, "```"@, CharClass::Backtick);
}

/// What a reply says is the content of its first choice, else its reasoning; where the reply has
/// neither it says nothing.
pub proof fn law_replies_say_their_content(
    reply: Seq<char>,
    choices: Seq<char>,
    choice: Seq<char>,
    message: Seq<char>,
)
    requires
        json_member(reply, "choices"@) == Some(choices),
        json_first(choices) == Some(choice),
        json_member(choice, "message"@) == Some(message),
    ensures
        ({
            let content = json_member(message, "content"@);
            let reasoning = json_member(message, "reasoning_content"@);
            let said = if content is Some {
                content
            } else {
                reasoning
            };
            &&& said is Some && json_string(said->0) is Some ==> chat_says(reply) == json_string(
                said->0,
            )->0
            &&& said is None || json_string(said->0) is None ==> chat_says(reply).len() == 0
        }),
{
}

/// The title in an answer is the member of that name of the object in its fences, where that is a
/// text, and the answer in its fences otherwise.
pub proof fn law_answers_tell_the_title(
    content: Seq<char>,
    member: Seq<char>,
    title: Seq<char>,
    fallback: Seq<char>,
)
    ensures
        json_member(unfenced(content), "title"@) == Some(member) && json_string(member) == Some(
            title,
        ) && normalized_title(title, fallback).len() > 0 ==> answered_title(content, fallback)
            == Some(normalized_title(title, fallback)),
        json_member(unfenced(content), "title"@) is None && unfenced(content).len() > 0
            ==> answered_title(content, fallback) == Some(
            normalized_title(unfenced(content), fallback),
        ),
        json_member(unfenced(content), "title"@) == Some(member) && json_string(member) is None
            && unfenced(content).len() > 0 ==> answered_title(content, fallback) == Some(
            normalized_title(unfenced(content), fallback),
        ),
{
}

/// A language model can be asked exactly where its address, its name and a key are known.
pub proof fn law_models_are_asked_with_all_that_it_takes(config: AiDialogueConfig)
    ensures
        config.api_url is None || config.model is None || config.api_key is None ==> !can_ask(
            config,
        ),
        config.api_key matches Some(k) ==> (first_key(k@) is None ==> !can_ask(config)),
        config.api_url is Some && config.model is Some && config.api_key is Some && first_key(
            config.api_key->0@,
        ) is Some ==> can_ask(config),
{
}

} // verus!
