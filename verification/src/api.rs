//! The speech service: its voices, the addresses of its requests, and when to ask again.

use crate::number::{decimal, to_decimal};
use crate::text::copy;
use vstd::prelude::*;

verus! {

/// A voice of the speech service.
#[derive(Debug)]
pub struct Voice {
    pub id: String,
    pub name: String,
    pub gender: String,
    pub locale: String,
    pub voice_type: String,
}

impl Clone for Voice {
    fn clone(&self) -> (r: Voice)
        ensures
            r == *self,
    {
        Voice {
            id: self.id.clone(),
            name: self.name.clone(),
            gender: self.gender.clone(),
            locale: self.locale.clone(),
            voice_type: self.voice_type.clone(),
        }
    }
}

/// The address of the list of voices.
pub fn voices_url(base_url: &str) -> (r: String)
    ensures
        r@ == base_url@ + "/voices"@,
{
    let mut r = copy(base_url);
    r.append("/voices");
    r
}

/// The elements of the lists, one list after the other.
pub open spec fn flattened(lists: Seq<Seq<Voice>>) -> Seq<Voice>
    decreases lists.len(),
{
    if lists.len() == 0 {
        seq![]
    } else {
        flattened(lists.drop_last()) + lists.last()
    }
}

/// The views of the lists.
pub open spec fn voice_lists(lists: Seq<Vec<Voice>>) -> Seq<Seq<Voice>> {
    Seq::new(lists.len(), |i: int| lists[i]@)
}

/// The voices of all providers, where the service reports success.
pub fn collect_voices(success: bool, providers: &Vec<Vec<Voice>>) -> (r: Option<Vec<Voice>>)
    ensures
        success ==> (r matches Some(v) && v@ == flattened(voice_lists(providers@))),
        !success ==> r is None,
{
    if !success {
        return None;
    }
    let ghost lists = voice_lists(providers@);
    let mut r: Vec<Voice> = Vec::new();
    let mut i: usize = 0;
    assert(lists.take(0) =~= seq![]);
    while i < providers.len()
        invariant
            i <= providers@.len(),
            lists == voice_lists(providers@),
            r@ == flattened(lists.take(i as int)),
        decreases providers@.len() - i,
    {
        let ghost before = r@;
        let list = &providers[i];
        let mut k: usize = 0;
        assert(r@ =~= before + list@.take(0));
        while k < list.len()
            invariant
                k <= list@.len(),
                r@ == before + list@.take(k as int),
            decreases list@.len() - k,
        {
            r.push(list[k].clone());
            k += 1;
            assert(r@ =~= before + list@.take(k as int));
        }
        proof {
            assert(list@.take(k as int) =~= list@);
            assert(lists.take(i + 1).drop_last() =~= lists.take(i as int));
            assert(lists.take(i + 1).last() == list@);
        }
        i += 1;
    }
    assert(lists.take(i as int) =~= lists);
    Some(r)
}

/// A name and its value in a query.
pub type Pair = (Seq<char>, Seq<char>);

/// The views of names and values.
pub open spec fn pair_views(pairs: Seq<(String, String)>) -> Seq<Pair> {
    Seq::new(pairs.len(), |i: int| (pairs[i].0@, pairs[i].1@))
}

/// The pair of an optional value.
pub open spec fn optional_pair(name: Seq<char>, value: Option<Seq<char>>) -> Seq<Pair> {
    match value {
        Some(v) => seq![(name, v)],
        None => seq![],
    }
}

/// The decimal numeral of an optional number.
pub open spec fn optional_decimal(n: Option<u8>) -> Option<Seq<char>> {
    match n {
        Some(v) => Some(decimal(v as nat)),
        None => None,
    }
}

/// What a request for speech asks for.
pub open spec fn speech_pairs(
    text: Seq<char>,
    voice: Option<String>,
    volume: Option<u8>,
    speed: Option<u8>,
    pitch: Option<u8>,
) -> Seq<Pair> {
    seq![("text"@, text)] + optional_pair(
        "voice"@,
        match voice {
            Some(v) => Some(v@),
            None => None,
        },
    ) + optional_pair("volume"@, optional_decimal(volume)) + optional_pair(
        "speed"@,
        optional_decimal(speed),
    ) + optional_pair("pitch"@, optional_decimal(pitch))
}

fn push_pair(pairs: &mut Vec<(String, String)>, name: &str, value: String)
    ensures
        pair_views(final(pairs)@) == pair_views(old(pairs)@) + seq![(name@, value@)],
{
    let ghost before = pair_views(pairs@);
    pairs.push((copy(name), value));
    assert(pair_views(pairs@) =~= before + seq![(name@, value@)]);
}

fn push_number(pairs: &mut Vec<(String, String)>, name: &str, value: Option<u8>)
    ensures
        pair_views(final(pairs)@) == pair_views(old(pairs)@) + optional_pair(
            name@,
            optional_decimal(value),
        ),
{
    match value {
        Some(v) => push_pair(pairs, name, to_decimal(v as u64)),
        None => {
            assert(pair_views(pairs@) + seq![] =~= pair_views(pairs@));
        },
    }
}

/// What a request for speech asks for.
pub fn speech_query(
    text: &str,
    voice: &Option<String>,
    volume: &Option<u8>,
    speed: &Option<u8>,
    pitch: &Option<u8>,
) -> (r: Vec<(String, String)>)
    ensures
        pair_views(r@) == speech_pairs(text@, *voice, *volume, *speed, *pitch),
{
    let mut pairs: Vec<(String, String)> = Vec::new();
    push_pair(&mut pairs, "text", copy(text));
    assert(pair_views(pairs@) =~= seq![("text"@, text@)]);
    match voice {
        Some(v) => push_pair(&mut pairs, "voice", v.clone()),
        None => {
            assert(pair_views(pairs@) + seq![] =~= pair_views(pairs@));
        },
    }
    push_number(&mut pairs, "volume", *volume);
    push_number(&mut pairs, "speed", *speed);
    push_number(&mut pairs, "pitch", *pitch);
    pairs
}

/// The address that the url crate makes of an address and the pairs of a query behind it; none
/// where it cannot parse the address.
pub uninterp spec fn url_with_query(url: Seq<char>, pairs: Seq<Pair>) -> Option<Seq<char>>;

/// How many bytes a parsed address may have.
pub const MAX_URL_BYTES: usize = 0xffff_ffff;

/// How many bytes a character of an address comes to at most once it is parsed: one of a host may
/// stand for many letters, each of which is written with several.
pub const URL_CHAR_BYTES: usize = 256;

/// How many bytes a character of a query comes to at most: four, each escaped in three.
pub const QUERY_CHAR_BYTES: usize = 12;

/// Whether an address of so many characters, with so many more in its query, may be longer than an
/// address can be once it is parsed and escaped.
pub open spec fn too_long(url_len: nat, pairs_len: nat) -> bool {
    URL_CHAR_BYTES * url_len + QUERY_CHAR_BYTES * pairs_len > MAX_URL_BYTES
}

/// How many characters pairs add to a query at most before they are escaped: their names and their
/// values, with two signs each.
pub open spec fn pairs_len(pairs: Seq<Pair>) -> nat
    decreases pairs.len(),
{
    if pairs.len() == 0 {
        0
    } else {
        pairs_len(pairs.drop_last()) + pairs.last().0.len() + pairs.last().1.len() + 2
    }
}

proof fn lemma_pairs_len(pairs: Seq<Pair>, n: int)
    requires
        0 <= n <= pairs.len(),
    ensures
        pairs_len(pairs.take(n)) <= pairs_len(pairs),
    decreases pairs.len(),
{
    if n < pairs.len() {
        lemma_pairs_len(pairs.drop_last(), n);
        assert(pairs.drop_last().take(n) =~= pairs.take(n));
    } else {
        assert(pairs.take(n) =~= pairs);
    }
}

/// Whether an address of so many characters and the pairs are short enough together.
fn is_short_enough(url_len: usize, pairs: &Vec<(String, String)>) -> (r: bool)
    ensures
        r == !too_long(url_len as nat, pairs_len(pair_views(pairs@))),
{
    if url_len > MAX_URL_BYTES / URL_CHAR_BYTES {
        return false;
    }
    let most = (MAX_URL_BYTES - URL_CHAR_BYTES * url_len) / QUERY_CHAR_BYTES;
    let ghost views = pair_views(pairs@);
    let mut len: usize = 0;
    let mut i: usize = 0;
    assert(views.take(0) =~= seq![]);
    while i < pairs.len()
        invariant
            i <= pairs@.len(),
            views == pair_views(pairs@),
            len == pairs_len(views.take(i as int)),
            len <= most,
            most == (MAX_URL_BYTES - URL_CHAR_BYTES * url_len) / QUERY_CHAR_BYTES as int,
            URL_CHAR_BYTES * url_len <= MAX_URL_BYTES,
        decreases pairs@.len() - i,
    {
        proof {
            assert(views.take(i + 1).drop_last() =~= views.take(i as int));
            assert(views.take(i + 1).last() == (pairs@[i as int].0@, pairs@[i as int].1@));
            lemma_pairs_len(views, i + 1);
        }
        let name = pairs[i].0.as_str().unicode_len();
        let value = pairs[i].1.as_str().unicode_len();
        let left = most - len;
        if left < 2 || name > left - 2 || value > left - 2 - name {
            return false;
        }
        len = len + 2 + name + value;
        i += 1;
    }
    assert(views.take(i as int) =~= views);
    true
}

/// `url::Url::parse`, and `extend_pairs` of its `query_pairs_mut`: the address with the pairs
/// added to its query, each name and value escaped; none where the address cannot be parsed. An
/// address of four gigabytes and more makes the call panic.
#[verifier::external_body]
fn add_query(url: &str, pairs: &Vec<(String, String)>) -> (r: Option<String>)
    requires
        !too_long(url@.len(), pairs_len(pair_views(pairs@))),
    ensures
        r matches Some(u) ==> url_with_query(url@, pair_views(pairs@)) == Some(u@),
        r is None ==> url_with_query(url@, pair_views(pairs@)) is None,
{
    let mut parsed = url::Url::parse(url).ok()?;
    parsed.query_pairs_mut().extend_pairs(pairs);
    Some(parsed.to_string())
}

/// The address of a request for speech; none where the service's address is none, and where the
/// whole may be longer than an address can be.
pub fn forward_url(
    base_url: &str,
    text: &str,
    voice: &Option<String>,
    volume: &Option<u8>,
    speed: &Option<u8>,
    pitch: &Option<u8>,
) -> (r: Option<String>)
    ensures
        ({
            let url = base_url@ + "/forward"@;
            let pairs = speech_pairs(text@, *voice, *volume, *speed, *pitch);
            let long = too_long(url.len(), pairs_len(pairs));
            match r {
                Some(u) => !long && url_with_query(url, pairs) == Some(u@),
                None => long || url_with_query(url, pairs) is None,
            }
        }),
{
    let mut url = copy(base_url);
    url.append("/forward");
    let pairs = speech_query(text, voice, volume, speed, pitch);
    if !is_short_enough(url.as_str().unicode_len(), &pairs) {
        return None;
    }
    add_query(url.as_str(), &pairs)
}

/// How often a request is made at most.
pub const MAX_ATTEMPTS: u32 = 3;

/// How many seconds pass before a request is made again.
pub const RETRY_SECONDS: u64 = 2;

/// How an attempt at a request ended.
#[derive(Clone, Copy, Debug, PartialEq, Eq, Structural)]
pub enum Attempt {
    /// The request could not be made up.
    NotBuilt,
    /// The service answered with success.
    Success,
    /// The service answered otherwise, or not at all.
    Failure,
}

/// What follows an attempt.
#[derive(Clone, Copy, Debug, PartialEq, Eq, Structural)]
pub enum AfterAttempt {
    /// The answer is returned.
    Return,
    /// After a pause the request is made again.
    Retry,
    /// The failure is returned.
    GiveUp,
}

/// What follows the attempt with that number, counted from 1: a failure is tried again until the
/// last attempt, and a request that cannot be made up is not.
pub fn after_attempt(number: u32, attempt: Attempt) -> (r: AfterAttempt)
    ensures
        r == match attempt {
            Attempt::Success => AfterAttempt::Return,
            Attempt::NotBuilt => AfterAttempt::GiveUp,
            Attempt::Failure => if number < MAX_ATTEMPTS {
                AfterAttempt::Retry
            } else {
                AfterAttempt::GiveUp
            },
        },
{
    match attempt {
        Attempt::Success => AfterAttempt::Return,
        Attempt::NotBuilt => AfterAttempt::GiveUp,
        Attempt::Failure => if number < MAX_ATTEMPTS {
            AfterAttempt::Retry
        } else {
            AfterAttempt::GiveUp
        },
    }
}

/// The voices of all providers are all voices of each of them, one provider after the other.
pub proof fn law_voices_of_all_providers_are_collected(lists: Seq<Seq<Voice>>)
    ensures
        flattened(lists) == lists.flatten_alt(),
    decreases lists.len(),
{
    if lists.len() > 0 {
        law_voices_of_all_providers_are_collected(lists.drop_last());
    }
}

/// A request for speech names its text first, and then the voice, the volume, the speed and the pitch,
/// each exactly where it is set, with its value and under its own name.
pub proof fn law_requests_name_what_is_set(
    text: Seq<char>,
    voice: Option<String>,
    volume: Option<u8>,
    speed: Option<u8>,
    pitch: Option<u8>,
)
    ensures
        ({
            let pairs = speech_pairs(text, voice, volume, speed, pitch);
            &&& pairs[0] == ("text"@, text)
            &&& pairs.len() == 1 + (if voice is Some {
                1int
            } else {
                0
            }) + (if volume is Some {
                1int
            } else {
                0
            }) + (if speed is Some {
                1int
            } else {
                0
            }) + (if pitch is Some {
                1int
            } else {
                0
            })
            &&& voice matches Some(v) ==> pairs[1] == ("voice"@, v@)
            &&& volume matches Some(v) ==> pairs.contains(("volume"@, decimal(v as nat)))
            &&& speed matches Some(v) ==> pairs.contains(("speed"@, decimal(v as nat)))
            &&& pitch matches Some(v) ==> pairs[pairs.len() - 1] == ("pitch"@, decimal(v as nat))
        }),
{
    let pairs = speech_pairs(text, voice, volume, speed, pitch);
    let a: int = if voice is Some {
        2
    } else {
        1
    };
    let b: int = if volume is Some {
        a + 1
    } else {
        a
    };
    if let Some(v) = volume {
        assert(pairs[a] == ("volume"@, decimal(v as nat)));
    }
    if let Some(v) = speed {
        assert(pairs[b] == ("speed"@, decimal(v as nat)));
    }
}

/// The voices of providers and the pairs of a query are those of each, in their order.
pub proof fn law_lists_keep_their_order(
    lists: Seq<Vec<Voice>>,
    pairs: Seq<(String, String)>,
    i: int,
)
    ensures
        voice_lists(lists).len() == lists.len(),
        0 <= i < lists.len() ==> voice_lists(lists)[i] == lists[i]@,
        pair_views(pairs).len() == pairs.len(),
        0 <= i < pairs.len() ==> pair_views(pairs)[i] == (pairs[i].0@, pairs[i].1@),
{
}

/// Addresses of up to a million characters, with up to a hundred million more in their query, are not
/// too long; a query has two characters more for each pair than its names and values.
pub proof fn law_usual_addresses_are_not_too_long(url_len: nat, pairs: Seq<Pair>, name: Seq<char>, value: Seq<char>)
    ensures
        url_len <= 1_000_000 && pairs_len(pairs) <= 100_000_000 ==> !too_long(
            url_len,
            pairs_len(pairs),
        ),
        pairs_len(seq![]) == 0,
        pairs_len(pairs.push((name, value))) == pairs_len(pairs) + name.len() + value.len() + 2,
{
    assert(pairs.push((name, value)).drop_last() =~= pairs);
}

} // verus!
