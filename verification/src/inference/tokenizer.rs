//! A tokenizer that a model brings along: text to token numbers and back.
use tokenizers::Tokenizer;
use vstd::prelude::*;

use crate::error;
use crate::error::{because, TrajectError, TrajectErrorView};
use crate::inference::description;
use crate::inference::description::{is_as_asked, is_described_sound, what_is_asked, Asked};
use crate::json;
use crate::json::{items_in, member, read, text_in, whole_in, JsonTree};
use crate::text;

verus! {

/// `tokenizers::Tokenizer`: the words that it knows are its `words`.
#[verifier::external_type_specification]
#[verifier::external_body]
pub struct ExTokenizer(tokenizers::Tokenizer);

/// The words that a tokenizer knows, with their numbers.
pub uninterp spec fn words(t: tokenizers::Tokenizer) -> Map<Seq<char>, u32>;

/// The words of the tokenizer that a text describes, if it describes one.
pub uninterp spec fn described(json: Seq<char>) -> Option<Map<Seq<char>, u32>>;

/// The description that a tokenizer was made from.
pub uninterp spec fn made_from(t: tokenizers::Tokenizer) -> Seq<char>;

/// The word that a tokenizer has under a number, if there is one.
pub uninterp spec fn numbered(t: tokenizers::Tokenizer, id: u32) -> Option<Seq<char>>;

/// The words that a tokenizer holds for special.
pub uninterp spec fn special_words(t: tokenizers::Tokenizer) -> Set<Seq<char>>;

/// What token numbers say, if a tokenizer can tell.
pub uninterp spec fn spoken(t: tokenizers::Tokenizer, ids: Seq<u32>, skip_special: bool) -> Option<
    Seq<char>,
>;

/// What a tokenizer may find in a text: token numbers, or nothing where it
/// fails. One that splits words at random may find several things.
pub uninterp spec fn findable(t: tokenizers::Tokenizer, s: Seq<char>, add_special: bool) -> Set<
    Option<Seq<u32>>,
>;

/// `tokenizers::Tokenizer::from_bytes`: the tokenizer that a text describes.
/// Its words depend on the text alone. Nothing is said of the wording of
/// errors. Descriptions that are not sound are left out: there are some that
/// make it panic, or that make a tokenizer which panics later.
#[verifier::external_body]
fn from_description(json: &str) -> (res: Result<Tokenizer, String>)
    requires
        description::describes_sound(json@),
    ensures
        match res {
            Ok(t) => described(json@) == Some(words(t)) && made_from(t) == json@,
            Err(_) => described(json@) is None,
        },
{
    Tokenizer::from_bytes(json.as_bytes()).map_err(|e| e.to_string())
}

/// `tokenizers::Tokenizer::get_vocab_size`, added words among them: how many
/// words there are.
#[verifier::external_body]
fn count_words(t: &Tokenizer) -> (res: usize)
    ensures
        res == words(*t).dom().len(),
{
    t.get_vocab_size(true)
}

/// `tokenizers::Tokenizer::token_to_id`: the number of a word.
#[verifier::external_body]
fn word_number(t: &Tokenizer, word: &str) -> (res: Option<u32>)
    ensures
        res == if words(*t).dom().contains(word@) {
            Some(words(*t)[word@])
        } else {
            None
        },
{
    t.token_to_id(word)
}

/// `tokenizers::Tokenizer::id_to_token`: the word under a number.
#[verifier::external_body]
fn word_numbered(t: &Tokenizer, id: u32) -> (res: Option<String>)
    ensures
        text::opt_chars(res) == numbered(*t, id),
{
    t.id_to_token(id)
}

/// `tokenizers::AddedVocabulary::is_special_token`, of a tokenizer's own added
/// words: whether a word is special.
#[verifier::external_body]
fn is_special_word(t: &Tokenizer, word: &str) -> (res: bool)
    ensures
        res == special_words(*t).contains(word@),
{
    t.get_added_vocabulary().is_special_token(word)
}

/// The words under token numbers, special ones left out on request, as they are
/// handed to a tokenizer's decoder.
pub open spec fn told(t: tokenizers::Tokenizer, ids: Seq<u32>, skip_special: bool) -> Seq<Seq<char>>
    decreases ids.len(),
{
    if ids.len() == 0 {
        Seq::empty()
    } else {
        let front = told(t, ids.drop_last(), skip_special);
        match numbered(t, ids.last()) {
            Some(w) => if skip_special && special_words(t).contains(w) {
                front
            } else {
                front.push(w)
            },
            None => front,
        }
    }
}

/// The words under token numbers.
fn words_told(t: &Tokenizer, ids: &[u32], skip_special: bool) -> (res: Vec<String>)
    ensures
        text::all_chars(res@) == told(*t, ids@, skip_special),
{
    let mut res: Vec<String> = Vec::new();
    let mut i: usize = 0;
    assert(ids@.take(0) =~= Seq::empty());
    assert(text::all_chars(res@) =~= Seq::empty());
    while i < ids.len()
        invariant
            i <= ids@.len(),
            text::all_chars(res@) == told(*t, ids@.take(i as int), skip_special),
        decreases ids@.len() - i,
    {
        assert(ids@.take(i + 1).drop_last() =~= ids@.take(i as int));
        assert(ids@.take(i + 1).last() == ids@[i as int]);
        if let Some(w) = word_numbered(t, ids[i]) {
            if !skip_special || !is_special_word(t, w.as_str()) {
                let ghost before = res@;
                res.push(w);
                assert(text::all_chars(res@) =~= text::all_chars(before).push(w@));
            }
        }
        i += 1;
    }
    assert(ids@.take(i as int) =~= ids@);
    res
}

/// `tokenizers::Tokenizer::encode`: the token numbers of a text are among those
/// that the tokenizer may find in it; where its model drops no merges at random,
/// it can find nothing else. With such a model it is not said which of them
/// come.
#[verifier::external_body]
fn encoded(t: &Tokenizer, s: &str, add_special_tokens: bool) -> (res: Result<Vec<u32>, String>)
    requires
        description::describes_sound(made_from(*t)),
    ensures
        findable(*t, s@, add_special_tokens).contains(
            match res {
                Ok(ids) => Some(ids@),
                Err(_) => None,
            },
        ),
        description::settled(made_from(*t)) ==> findable(*t, s@, add_special_tokens) == (Set::<
            Option<Seq<u32>>,
        >::empty().insert(
            match res {
                Ok(ids) => Some(ids@),
                Err(_) => None,
            },
        )),
{
    t.encode(s, add_special_tokens).map(|e| e.get_ids().to_vec()).map_err(|e| e.to_string())
}

/// `tokenizers::Tokenizer::decode`: what token numbers say depends on the
/// tokenizer, the numbers and whether special ones are left out. Nothing is
/// said of the wording of errors. Words that are not as the decoder asks are
/// left out: it panics on some of them.
#[verifier::external_body]
fn decoded(t: &Tokenizer, ids: &[u32], skip_special_tokens: bool) -> (res: Result<String, String>)
    requires
        description::describes_sound(made_from(*t)),
        description::decodes(made_from(*t), told(*t, ids@, skip_special_tokens)),
    ensures
        match res {
            Ok(s) => spoken(*t, ids@, skip_special_tokens) == Some(s@),
            Err(_) => spoken(*t, ids@, skip_special_tokens) is None,
        },
{
    t.decode(ids, skip_special_tokens).map_err(|e| e.to_string())
}

/// The number that a configuration states under a key: a whole number, or the
/// first of a list.
pub open spec fn stated_id(config: JsonTree, key: Seq<char>) -> Option<u64> {
    match config.member(key) {
        Some(JsonTree::Number(n)) => n.whole,
        Some(JsonTree::List(s)) => if s.len() > 0 {
            match s[0] {
                JsonTree::Number(n) => n.whole,
                _ => None,
            }
        } else {
            None
        },
        _ => None,
    }
}

/// The number that the first of several configurations states that states one;
/// those that are not there or cannot be read state none.
pub open spec fn first_id(configs: Seq<Option<Seq<char>>>, key: Seq<char>) -> Option<u32>
    decreases configs.len(),
{
    if configs.len() == 0 {
        None
    } else {
        let here = match configs[0] {
            Some(s) => match json::json_read(s) {
                Some(t) => stated_id(t, key),
                None => None,
            },
            None => None,
        };
        match here {
            Some(n) => Some(n as u32),
            None => first_id(configs.drop_first(), key),
        }
    }
}

/// Optional texts as optional characters.
pub open spec fn opt_texts(v: Seq<Option<String>>) -> Seq<Option<Seq<char>>> {
    v.map_values(|o: Option<String>| text::opt_chars(o))
}

fn id_in(config: &str, key: &str) -> (res: Option<u64>)
    ensures
        res == match json::json_read(config@) {
            Some(t) => stated_id(t, key@),
            None => None,
        },
{
    let v = match read(config) {
        Ok(v) => v,
        Err(_) => {
            return None;
        },
    };
    match member(&v, key) {
        Some(m) => match whole_in(m) {
            Some(n) => Some(n),
            None => match items_in(m) {
                Some(items) => if items.len() > 0 {
                    let first = whole_in(&items[0]);
                    assert(json::trees(items@)[0] == json::tree(items@[0]));
                    first
                } else {
                    None
                },
                None => None,
            },
        },
        None => None,
    }
}

/// The special number that the first of several configurations states.
pub fn read_special_id(configs: &Vec<Option<String>>, key: &str) -> (res: Option<u32>)
    ensures
        res == first_id(opt_texts(configs@), key@),
{
    let ghost all = opt_texts(configs@);
    let mut i: usize = 0;
    assert(all.skip(0) =~= all);
    while i < configs.len()
        invariant
            i <= configs@.len(),
            all == opt_texts(configs@),
            first_id(all, key@) == first_id(all.skip(i as int), key@),
        decreases configs@.len() - i,
    {
        assert(all.skip(i as int)[0] == text::opt_chars(configs@[i as int]));
        assert(all.skip(i as int).drop_first() =~= all.skip(i + 1));
        if let Some(s) = &configs[i] {
            if let Some(n) = id_in(s.as_str(), key) {
                return Some(
                    #[verifier::truncate]
                    (n as u32),
                );
            }
        }
        i += 1;
    }
    None
}

/// The word that a configuration states under a key: a text, or the content of
/// an object.
pub open spec fn stated_word(config: Option<Seq<char>>, key: Seq<char>) -> Option<Seq<char>> {
    match config {
        Some(s) => match json::json_read(s) {
            Some(t) => match t.member(key) {
                Some(JsonTree::Text(w)) => Some(w),
                Some(o) => match o.member("content"@) {
                    Some(c) => c.as_text(),
                    None => None,
                },
                None => None,
            },
            None => None,
        },
        None => None,
    }
}

/// The special word that a configuration states.
pub fn read_special_token_str(config: &Option<String>, key: &str) -> (res: Option<String>)
    ensures
        text::opt_chars(res) == stated_word(text::opt_chars(*config), key@),
{
    let s = match config {
        Some(s) => s,
        None => {
            return None;
        },
    };
    let v = match read(s.as_str()) {
        Ok(v) => v,
        Err(_) => {
            return None;
        },
    };
    match member(&v, key) {
        Some(m) => match text_in(m) {
            Some(w) => Some(w.to_string()),
            None => match member(m, "content") {
                Some(c) => match text_in(c) {
                    Some(w) => Some(w.to_string()),
                    None => None,
                },
                None => None,
            },
        },
        None => None,
    }
}

/// A tokenizer, and its special numbers.
pub struct HfTokenizer {
    inner: Tokenizer,
    /// What its decoder asks of the words that it is given.
    asked: Asked,
    path: String,
    /// Words that the tokenizer knows.
    vocab_size: u32,
    eos_token_id: Option<u32>,
    bos_token_id: Option<u32>,
}

pub struct HfTokenizerView {
    pub engine: tokenizers::Tokenizer,
    pub asked: Asked,
    pub path: Seq<char>,
    pub vocab_size: u32,
    pub eos_token_id: Option<u32>,
    pub bos_token_id: Option<u32>,
}

impl View for HfTokenizer {
    type V = HfTokenizerView;

    closed spec fn view(&self) -> HfTokenizerView {
        HfTokenizerView {
            engine: self.inner,
            asked: self.asked,
            path: self.path@,
            vocab_size: self.vocab_size,
            eos_token_id: self.eos_token_id,
            bos_token_id: self.bos_token_id,
        }
    }
}

/// What a special number is: what the configurations state, else the number of
/// the word that the tokenizer's own configuration states.
pub open spec fn special(
    configs: Seq<Option<Seq<char>>>,
    id_key: Seq<char>,
    own: Option<Seq<char>>,
    word_key: Seq<char>,
    known: Map<Seq<char>, u32>,
) -> Option<u32> {
    match first_id(configs, id_key) {
        Some(n) => Some(n),
        None => match stated_word(own, word_key) {
            Some(w) => if known.dom().contains(w) {
                Some(known[w])
            } else {
                None
            },
            None => None,
        },
    }
}

impl HfTokenizer {
    /// The words that it knows.
    pub open spec fn known(&self) -> Map<Seq<char>, u32> {
        words(self@.engine)
    }

    /// It works on every text, and on the words that its decoder asks for.
    pub open spec fn wf(&self) -> bool {
        &&& description::describes_sound(made_from(self@.engine))
        &&& description::asked(json::json_read(made_from(self@.engine)).unwrap()) == Some(
            self@.asked,
        )
    }

    /// Whether it can decode these numbers.
    pub open spec fn decodes(&self, ids: Seq<u32>, skip_special: bool) -> bool {
        description::decodes(made_from(self@.engine), told(self@.engine, ids, skip_special))
    }

    /// The tokenizer that a text describes, without special numbers. The text
    /// has to be JSON, and its tokenizer has to work on every text.
    pub fn from_text(path: &str, json: &str) -> (res: Result<Self, TrajectError>)
        ensures
            res is Ok <==> description::describes_sound(json@) && described(json@) is Some,
            match res {
                Ok(t) => {
                    &&& t.wf()
                    &&& made_from(t@.engine) == json@
                    &&& described(json@) == Some(t.known())
                    &&& t@.path == path@
                    &&& t@.vocab_size == t.known().dom().len() as u32
                    &&& t@.eos_token_id is None
                    &&& t@.bos_token_id is None
                },
                Err(e) => error::tells(e@, "load tokenizer "@ + path@ + ": "@),
            },
    {
        let mut head = "load tokenizer ".to_string();
        head.append(path);
        head.append(": ");
        let v = match read(json) {
            Ok(v) => v,
            Err(why) => {
                return Err(because(head.as_str(), why.as_str()));
            },
        };
        if !is_described_sound(json, &v) {
            return Err(because(head.as_str(), "not a tokenizer that works on every text"));
        }
        let asked = match what_is_asked(&v) {
            Some(a) => a,
            None => Asked::Nothing,
        };
        match from_description(json) {
            Ok(inner) => {
                let n: usize = count_words(&inner);
                Ok(
                    HfTokenizer {
                        inner,
                        asked,
                        path: path.to_string(),
                        vocab_size: #[verifier::truncate]
                        (n as u32),
                        eos_token_id: None,
                        bos_token_id: None,
                    },
                )
            },
            Err(why) => Err(because(head.as_str(), why.as_str())),
        }
    }

    /// The tokenizer of a model directory, given what its files hold: the
    /// description, the configurations that may state special numbers, and the
    /// tokenizer's own configuration.
    pub fn from_model_files(
        path: &str,
        json: Option<&str>,
        configs: &Vec<Option<String>>,
        own: &Option<String>,
    ) -> (res: Result<Self, TrajectError>)
        ensures
            match json {
                None => res matches Err(e) && e@ == TrajectErrorView::Other(
                    "tokenizer.json not found at "@ + path@,
                ),
                Some(j) => {
                    &&& res is Ok <==> description::describes_sound(j@) && described(j@) is Some
                    &&& match res {
                        Ok(t) => {
                            &&& t.wf()
                            &&& made_from(t@.engine) == j@
                            &&& described(j@) == Some(t.known())
                            &&& t@.path == path@
                            &&& t@.vocab_size == t.known().dom().len() as u32
                            &&& t@.eos_token_id == special(
                                opt_texts(configs@),
                                "eos_token_id"@,
                                text::opt_chars(*own),
                                "eos_token"@,
                                t.known(),
                            )
                            &&& t@.bos_token_id == special(
                                opt_texts(configs@),
                                "bos_token_id"@,
                                text::opt_chars(*own),
                                "bos_token"@,
                                t.known(),
                            )
                        },
                        Err(e) => error::tells(e@, "load tokenizer "@ + path@ + ": "@),
                    }
                },
            },
    {
        let j = match json {
            Some(j) => j,
            None => {
                let mut m = "tokenizer.json not found at ".to_string();
                m.append(path);
                return Err(TrajectError::Other(m));
            },
        };
        let mut t = match Self::from_text(path, j) {
            Ok(t) => t,
            Err(e) => {
                return Err(e);
            },
        };
        t.eos_token_id = read_special_id(configs, "eos_token_id");
        t.bos_token_id = read_special_id(configs, "bos_token_id");
        if t.eos_token_id.is_none() {
            if let Some(s) = read_special_token_str(own, "eos_token") {
                t.eos_token_id = word_number(&t.inner, s.as_str());
            }
        }
        if t.bos_token_id.is_none() {
            if let Some(s) = read_special_token_str(own, "bos_token") {
                t.bos_token_id = word_number(&t.inner, s.as_str());
            }
        }
        Ok(t)
    }

    pub fn vocab_size(&self) -> (res: u32)
        ensures
            res == self@.vocab_size,
    {
        self.vocab_size
    }

    pub fn eos_token_id(&self) -> (res: Option<u32>)
        ensures
            res == self@.eos_token_id,
    {
        self.eos_token_id
    }

    pub fn bos_token_id(&self) -> (res: Option<u32>)
        ensures
            res == self@.bos_token_id,
    {
        self.bos_token_id
    }

    pub fn path(&self) -> (res: &str)
        ensures
            res@ == self@.path,
    {
        self.path.as_str()
    }

    /// The token numbers of a text: some that the tokenizer may find in it, or
    /// an error where it may fail on it. Where its model drops no merges at
    /// random, it is always the same.
    pub fn encode(&self, s: &str, add_special_tokens: bool) -> (res: Result<Vec<u32>, TrajectError>)
        requires
            self.wf(),
        ensures
            match res {
                Ok(ids) => findable(self@.engine, s@, add_special_tokens).contains(Some(ids@)),
                Err(e) => findable(self@.engine, s@, add_special_tokens).contains(None)
                    && error::tells(e@, "tokenizer encode: "@),
            },
            description::settled(made_from(self@.engine)) ==> findable(
                self@.engine,
                s@,
                add_special_tokens,
            ) == (Set::<Option<Seq<u32>>>::empty().insert(numbers(res))),
    {
        encode_answer(encoded(&self.inner, s, add_special_tokens))
    }

    /// What token numbers say. Numbers whose words are not as the decoder asks
    /// cannot be decoded.
    pub fn decode(&self, ids: &[u32], skip_special_tokens: bool) -> (res: Result<
        String,
        TrajectError,
    >)
        requires
            self.wf(),
        ensures
            match res {
                Ok(s) => self.decodes(ids@, skip_special_tokens) && spoken(
                    self@.engine,
                    ids@,
                    skip_special_tokens,
                ) == Some(s@),
                Err(e) => if self.decodes(ids@, skip_special_tokens) {
                    spoken(self@.engine, ids@, skip_special_tokens) is None && error::tells(
                        e@,
                        "tokenizer decode: "@,
                    )
                } else {
                    e@ == TrajectErrorView::Other("tokenizer decode: "@ + NOT_AS_ASKED@)
                },
            },
    {
        let ready = match self.asked {
            Asked::Nothing => true,
            _ => is_as_asked(self.asked, &words_told(&self.inner, ids, skip_special_tokens)),
        };
        if !ready {
            return Err(because("tokenizer decode: ", NOT_AS_ASKED));
        }
        match decoded(&self.inner, ids, skip_special_tokens) {
            Ok(s) => Ok(s),
            Err(why) => Err(because("tokenizer decode: ", why.as_str())),
        }
    }

    /// The token numbers of a text, without special ones.
    pub fn encode_ordinary(&self, s: &str) -> (res: Result<Vec<u32>, TrajectError>)
        requires
            self.wf(),
        ensures
            match res {
                Ok(ids) => findable(self@.engine, s@, false).contains(Some(ids@)),
                Err(e) => findable(self@.engine, s@, false).contains(None) && error::tells(
                    e@,
                    "tokenizer encode: "@,
                ),
            },
            description::settled(made_from(self@.engine)) ==> findable(self@.engine, s@, false) == (
            Set::<Option<Seq<u32>>>::empty().insert(numbers(res))),
    {
        self.encode(s, false)
    }
}

/// The numbers in an answer, if there are any.
pub open spec fn numbers(res: Result<Vec<u32>, TrajectError>) -> Option<Seq<u32>> {
    match res {
        Ok(ids) => Some(ids@),
        Err(_) => None,
    }
}

/// Why some tokens are not decoded.
pub const NOT_AS_ASKED: &'static str = "the tokens are not as the decoder asks";

/// What is answered for what a tokenizer found: the same numbers, or an error
/// that says why not.
pub open spec fn encode_answers(
    found: Result<Vec<u32>, String>,
    res: Result<Vec<u32>, TrajectError>,
) -> bool {
    match (found, res) {
        (Ok(ids), Ok(r)) => r@ == ids@,
        (Err(why), Err(e)) => error::says(e@, "tokenizer encode: "@, why@),
        _ => false,
    }
}

/// What is answered for what a tokenizer found in a text.
pub fn encode_answer(found: Result<Vec<u32>, String>) -> (res: Result<Vec<u32>, TrajectError>)
    ensures
        encode_answers(found, res),
{
    match found {
        Ok(ids) => Ok(ids),
        Err(why) => Err(because("tokenizer encode: ", why.as_str())),
    }
}

/// A number that a configuration states is the number itself, or the first of a
/// list; the first configuration that states one is believed, and otherwise the
/// next are asked.
pub proof fn law_stated_number(
    m: Map<Seq<char>, JsonTree>,
    key: Seq<char>,
    s: Seq<char>,
    n: u64,
    num: JsonTree,
    more: Seq<JsonTree>,
    rest: Seq<Option<Seq<char>>>,
)
    requires
        num matches JsonTree::Number(x) && x.whole == Some(n),
        n <= u32::MAX,
    ensures
        stated_id(JsonTree::Object(m.insert(key, num)), key) == Some(n),
        stated_id(JsonTree::Object(m.insert(key, JsonTree::List(seq![num] + more))), key) == Some(n),
        !m.dom().contains(key) ==> stated_id(JsonTree::Object(m), key) is None,
        (json::json_read(s) matches Some(t) && stated_id(t, key) == Some(n)) ==> first_id(
            seq![Some(s)] + rest,
            key,
        ) == Some(n as u32),
        (json::json_read(s) matches Some(t) ==> stated_id(t, key) is None) ==> first_id(
            seq![Some(s)] + rest,
            key,
        ) == first_id(rest, key),
        first_id(seq![None] + rest, key) == first_id(rest, key),
        first_id(Seq::empty(), key) is None,
{
    assert((seq![num] + more)[0] == num);
    assert((seq![Some(s)] + rest).drop_first() =~= rest);
    assert((seq![None::<Seq<char>>] + rest).drop_first() =~= rest);
}

/// A special word is the text that is stated, or its content; and its number is
/// what the tokenizer knows it by, where no configuration states one.
pub proof fn law_special_word(
    m: Map<Seq<char>, JsonTree>,
    inner: Map<Seq<char>, JsonTree>,
    key: Seq<char>,
    w: Seq<char>,
    s: Seq<char>,
    configs: Seq<Option<Seq<char>>>,
    id_key: Seq<char>,
    known: Map<Seq<char>, u32>,
)
    ensures
        json::json_read(s) == Some(JsonTree::Object(m.insert(key, JsonTree::Text(w))))
            ==> stated_word(Some(s), key) == Some(w),
        json::json_read(s) == Some(
            JsonTree::Object(
                m.insert(key, JsonTree::Object(inner.insert("content"@, JsonTree::Text(w)))),
            ),
        ) ==> stated_word(Some(s), key) == Some(w),
        stated_word(None, key) is None,
        first_id(configs, id_key) matches Some(n) ==> special(configs, id_key, Some(s), key, known)
            == Some(n),
        first_id(configs, id_key) is None && stated_word(Some(s), key) == Some(w)
            && known.dom().contains(w) ==> special(configs, id_key, Some(s), key, known) == Some(
            known[w],
        ),
        first_id(configs, id_key) is None && stated_word(Some(s), key) is None ==> special(
            configs,
            id_key,
            Some(s),
            key,
            known,
        ) is None,
{
}

/// What is found in a text is handed on number by number; where nothing can be
/// found, the error says why.
pub proof fn law_found_is_answered(
    found: Result<Vec<u32>, String>,
    res: Result<Vec<u32>, TrajectError>,
)
    requires
        encode_answers(found, res),
    ensures
        found matches Ok(ids) ==> numbers(res) == Some(ids@),
        found matches Err(why) ==> (res matches Err(e) && e@ == TrajectErrorView::Other(
            "tokenizer encode: "@ + why@,
        )),
{
}

} // verus!
