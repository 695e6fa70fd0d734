//! Descriptions of tokenizers: which of them make a tokenizer that works on
//! every text.
use serde_json::Value;
use vstd::prelude::*;

use crate::inference::charsmap;
use crate::inference::charsmap::is_charsmap_fine;
use crate::inference::patterns;
use crate::inference::patterns::{is_never_empty, is_pattern_fine};
use crate::json;
use crate::json::{items_in, kind_of, member, show, text_in, whole_in, JsonKind, JsonTree};
use crate::text;
use crate::text::{chars_of, same, space};

verus! {

/// How deep parts of a description may hold parts of their own.
pub const NESTING: u8 = 64;

/// How many tokens a text is padded to at most.
pub const MOST_PADDING: u64 = 0x100_0000;

/// Where counts of added tokens stop.
pub const MANY: u64 = 0xffff_ffff;

/// How long a word of a list of words may be.
pub const LONGEST_WORD: usize = 1000;

/// Where the numbers of words that are added end.
pub const MOST_NUMBERS: u64 = 0x8000_0000;

pub open spec fn text_at(t: JsonTree, key: Seq<char>) -> Option<Seq<char>> {
    match t.member(key) {
        Some(m) => m.as_text(),
        None => None,
    }
}

pub open spec fn whole_at(t: JsonTree, key: Seq<char>) -> Option<u64> {
    match t.member(key) {
        Some(JsonTree::Number(n)) => n.whole,
        _ => None,
    }
}

pub open spec fn list_at(t: JsonTree, key: Seq<char>) -> Option<Seq<JsonTree>> {
    match t.member(key) {
        Some(JsonTree::List(s)) => Some(s),
        _ => None,
    }
}

/// Whether a flag is there and set.
pub open spec fn flag_at(t: JsonTree, key: Seq<char>) -> bool {
    t.member(key) == Some(JsonTree::Bool(true))
}

/// A part of a description, if it is there.
pub open spec fn part(t: JsonTree, key: Seq<char>) -> Option<JsonTree> {
    match t.member(key) {
        Some(JsonTree::Null) => None,
        m => m,
    }
}

fn text_of<'a>(v: &'a Value, key: &str) -> (res: Option<&'a str>)
    ensures
        match res {
            Some(s) => text_at(json::tree(*v), key@) == Some(s@),
            None => text_at(json::tree(*v), key@) is None,
        },
{
    match member(v, key) {
        Some(m) => text_in(m),
        None => None,
    }
}

fn whole_of(v: &Value, key: &str) -> (res: Option<u64>)
    ensures
        res == whole_at(json::tree(*v), key@),
{
    match member(v, key) {
        Some(m) => whole_in(m),
        None => None,
    }
}

fn items_of<'a>(v: &'a Value, key: &str) -> (res: Option<&'a Vec<Value>>)
    ensures
        match res {
            Some(vs) => list_at(json::tree(*v), key@) == Some(json::trees(vs@)),
            None => list_at(json::tree(*v), key@) is None,
        },
{
    match member(v, key) {
        Some(m) => items_in(m),
        None => None,
    }
}

fn flag_of(v: &Value, key: &str) -> (res: bool)
    ensures
        res == flag_at(json::tree(*v), key@),
{
    match member(v, key) {
        Some(m) => kind_of(m) == JsonKind::Flag(true),
        None => false,
    }
}

fn part_of<'a>(v: &'a Value, key: &str) -> (res: Option<&'a Value>)
    ensures
        match res {
            Some(m) => part(json::tree(*v), key@) == Some(json::tree(*m)),
            None => part(json::tree(*v), key@) is None,
        },
{
    match member(v, key) {
        Some(m) => if kind_of(m) == JsonKind::Null {
            None
        } else {
            Some(m)
        },
        None => None,
    }
}

fn says(v: &Value, key: &str, want: &str) -> (res: bool)
    ensures
        res == (text_at(json::tree(*v), key@) == Some(want@)),
{
    match text_of(v, key) {
        Some(s) => same(s, want),
        None => false,
    }
}

/// Whether a text is there under a key and holds something.
pub open spec fn some_text(t: JsonTree, key: Seq<char>) -> bool {
    text_at(t, key) matches Some(s) && s.len() > 0
}

fn has_some_text(v: &Value, key: &str) -> (res: bool)
    ensures
        res == some_text(json::tree(*v), key@),
{
    match text_of(v, key) {
        Some(s) => chars_of(s).len() > 0,
        None => false,
    }
}

/// The expression that a part searches for, if it searches for one.
pub open spec fn expression_in(t: JsonTree) -> Option<JsonTree> {
    match t.member("pattern"@) {
        Some(p) => p.member("Regex"@),
        None => None,
    }
}

/// Whether that expression can be searched for in every text.
pub open spec fn search_fine(t: JsonTree) -> bool {
    expression_in(t) matches Some(r) ==> (r.as_text() matches Some(s) && patterns::pattern_fine(s))
}

fn is_search_fine(v: &Value) -> (res: bool)
    ensures
        res == search_fine(json::tree(*v)),
{
    match member(v, "pattern") {
        Some(p) => match member(p, "Regex") {
            Some(r) => match text_in(r) {
                Some(s) => is_pattern_fine(s),
                None => false,
            },
            None => true,
        },
        None => true,
    }
}

/// Whether what is put in place of matches is empty, or every match holds
/// something.
pub open spec fn replacement_fine(n: JsonTree) -> bool {
    n.member("pattern"@) matches Some(p) ==> match p.member("Regex"@) {
        Some(r) => text_at(n, "content"@) == Some(""@) || (r.as_text() matches Some(s)
            && patterns::never_empty(s)),
        None => some_text(p, "String"@),
    }
}

fn is_replacement_fine(v: &Value) -> (res: bool)
    ensures
        res == replacement_fine(json::tree(*v)),
{
    match member(v, "pattern") {
        Some(p) => match member(p, "Regex") {
            Some(r) => says(v, "content", "") || match text_in(r) {
                Some(s) => is_never_empty(s),
                None => false,
            },
            None => has_some_text(p, "String"),
        },
        None => true,
    }
}

/// Whether the sort of a part, if it is told, is told as a text.
pub open spec fn sort_fine(t: JsonTree) -> bool {
    t.member("type"@) is Some ==> text_at(t, "type"@) is Some
}

fn is_sort_fine(v: &Value) -> (res: bool)
    ensures
        res == sort_fine(json::tree(*v)),
{
    member(v, "type").is_none() || text_of(v, "type").is_some()
}

/// Whether a normalizer that goes by a table of replacements has one, and the
/// table leads nowhere outside.
pub open spec fn replacements_fine(n: JsonTree) -> bool {
    text_at(n, "type"@) == Some("Precompiled"@) || n.member("precompiled_charsmap"@) is Some ==> (
    text_at(n, "precompiled_charsmap"@) matches Some(s) && charsmap::charsmap_fine(s))
}

fn are_replacements_fine(v: &Value) -> (res: bool)
    ensures
        res == replacements_fine(json::tree(*v)),
{
    if !says(v, "type", "Precompiled") && member(v, "precompiled_charsmap").is_none() {
        return true;
    }
    match text_of(v, "precompiled_charsmap") {
        Some(s) => is_charsmap_fine(s),
        None => false,
    }
}

/// Whether a normalizer leaves every text in order: tables that lead outside,
/// empty insertions and insertions where nothing was matched do not.
pub open spec fn normalizer_fine(n: JsonTree, depth: nat) -> bool
    decreases depth, 0nat,
{
    &&& n is Object
    &&& sort_fine(n)
    &&& replacements_fine(n)
    &&& (n.member("prepend"@) is Some ==> some_text(n, "prepend"@))
    &&& search_fine(n)
    &&& replacement_fine(n)
    &&& (n.member("normalizers"@) is Some ==> depth > 0 && (list_at(n, "normalizers"@) matches Some(
        s,
    ) && normalizers_fine(s, (depth - 1) as nat)))
}

pub open spec fn normalizers_fine(s: Seq<JsonTree>, depth: nat) -> bool
    decreases depth, s.len() + 1,
{
    s.len() == 0 || (normalizers_fine(s.drop_last(), depth) && normalizer_fine(s.last(), depth))
}

proof fn lemma_normalizers_fine(s: Seq<JsonTree>, n: int, depth: nat)
    requires
        0 <= n <= s.len(),
        !normalizers_fine(s.take(n), depth),
    ensures
        !normalizers_fine(s, depth),
    decreases s.len() - n,
{
    if n < s.len() {
        assert(s.take(n + 1).drop_last() =~= s.take(n));
        lemma_normalizers_fine(s, n + 1, depth);
    } else {
        assert(s.take(n) =~= s);
    }
}

#[verifier::loop_isolation(false)]
fn is_normalizer_fine(v: &Value, depth: u8) -> (res: bool)
    ensures
        res == normalizer_fine(json::tree(*v), depth as nat),
    decreases depth,
{
    if kind_of(v) != JsonKind::Object || !is_sort_fine(v) || !are_replacements_fine(v) {
        return false;
    }
    if member(v, "prepend").is_some() && !has_some_text(v, "prepend") {
        return false;
    }
    if !is_search_fine(v) || !is_replacement_fine(v) {
        return false;
    }
    if member(v, "normalizers").is_none() {
        return true;
    }
    if depth == 0 {
        return false;
    }
    let items = match items_of(v, "normalizers") {
        Some(items) => items,
        None => {
            return false;
        },
    };
    let ghost all = json::trees(items@);
    let mut i: usize = 0;
    assert(all.take(0) =~= Seq::empty());
    while i < items.len()
        invariant
            i <= items@.len(),
            depth > 0,
            all == json::trees(items@),
            list_at(json::tree(*v), "normalizers"@) == Some(all),
            normalizers_fine(all.take(i as int), (depth - 1) as nat),
        decreases items@.len() - i,
    {
        assert(all.take(i + 1).drop_last() =~= all.take(i as int));
        assert(all.take(i + 1).last() == json::tree(items@[i as int]));
        if !is_normalizer_fine(&items[i], depth - 1) {
            proof {
                lemma_normalizers_fine(all, i + 1, (depth - 1) as nat);
            }
            return false;
        }
        i += 1;
    }
    assert(all.take(i as int) =~= all);
    true
}

/// Whether a normalizer never makes a text empty that was not.
pub open spec fn keeps_text(n: JsonTree, depth: nat) -> bool
    decreases depth, 0nat,
{
    match text_at(n, "type"@) {
        Some(k) => {
            ||| k == "NFC"@
            ||| k == "NFD"@
            ||| k == "NFKC"@
            ||| k == "NFKD"@
            ||| k == "Lowercase"@
            ||| k == "ByteLevel"@
            ||| k == "Prepend"@
            ||| (k == "Replace"@ && some_text(n, "content"@))
            ||| (k == "Sequence"@ && depth > 0 && (list_at(n, "normalizers"@) matches Some(s)
                && all_keep_text(s, (depth - 1) as nat)))
        },
        None => false,
    }
}

pub open spec fn all_keep_text(s: Seq<JsonTree>, depth: nat) -> bool
    decreases depth, s.len() + 1,
{
    s.len() == 0 || (all_keep_text(s.drop_last(), depth) && keeps_text(s.last(), depth))
}

proof fn lemma_all_keep_text(s: Seq<JsonTree>, n: int, depth: nat)
    requires
        0 <= n <= s.len(),
        !all_keep_text(s.take(n), depth),
    ensures
        !all_keep_text(s, depth),
    decreases s.len() - n,
{
    if n < s.len() {
        assert(s.take(n + 1).drop_last() =~= s.take(n));
        lemma_all_keep_text(s, n + 1, depth);
    } else {
        assert(s.take(n) =~= s);
    }
}

#[verifier::loop_isolation(false)]
fn does_keep_text(v: &Value, depth: u8) -> (res: bool)
    ensures
        res == keeps_text(json::tree(*v), depth as nat),
    decreases depth,
{
    let k = match text_of(v, "type") {
        Some(k) => k,
        None => {
            return false;
        },
    };
    if same(k, "NFC") || same(k, "NFD") || same(k, "NFKC") || same(k, "NFKD") || same(
        k,
        "Lowercase",
    ) || same(k, "ByteLevel") || same(k, "Prepend") {
        return true;
    }
    if same(k, "Replace") && has_some_text(v, "content") {
        return true;
    }
    if !same(k, "Sequence") || depth == 0 {
        return false;
    }
    let items = match items_of(v, "normalizers") {
        Some(items) => items,
        None => {
            return false;
        },
    };
    let ghost all = json::trees(items@);
    let mut i: usize = 0;
    assert(all.take(0) =~= Seq::empty());
    while i < items.len()
        invariant
            i <= items@.len(),
            depth > 0,
            all == json::trees(items@),
            all_keep_text(all.take(i as int), (depth - 1) as nat),
        decreases items@.len() - i,
    {
        assert(all.take(i + 1).drop_last() =~= all.take(i as int));
        assert(all.take(i + 1).last() == json::tree(items@[i as int]));
        if !does_keep_text(&items[i], depth - 1) {
            proof {
                lemma_all_keep_text(all, i + 1, (depth - 1) as nat);
            }
            return false;
        }
        i += 1;
    }
    assert(all.take(i as int) =~= all);
    true
}

/// Whether a normalizer does nothing: it is a sequence without parts.
pub open spec fn idle(n: JsonTree) -> bool {
    text_at(n, "type"@) == Some("Sequence"@) && (list_at(n, "normalizers"@) matches Some(s)
        && s.len() == 0)
}

fn is_idle(v: &Value) -> (res: bool)
    ensures
        res == idle(json::tree(*v)),
{
    says(v, "type", "Sequence") && match items_of(v, "normalizers") {
        Some(items) => items.len() == 0,
        None => false,
    }
}

/// Whether a splitter splits every text: pieces without length do not, nor do
/// some expressions.
pub open spec fn splitter_fine(p: JsonTree, depth: nat) -> bool
    decreases depth, 0nat,
{
    &&& p is Object
    &&& whole_at(p, "length"@) != Some(0u64)
    &&& search_fine(p)
    &&& (p.member("pretokenizers"@) is Some ==> depth > 0 && (list_at(
        p,
        "pretokenizers"@,
    ) matches Some(s) && splitters_fine(s, (depth - 1) as nat)))
}

pub open spec fn splitters_fine(s: Seq<JsonTree>, depth: nat) -> bool
    decreases depth, s.len() + 1,
{
    s.len() == 0 || (splitters_fine(s.drop_last(), depth) && splitter_fine(s.last(), depth))
}

proof fn lemma_splitters_fine(s: Seq<JsonTree>, n: int, depth: nat)
    requires
        0 <= n <= s.len(),
        !splitters_fine(s.take(n), depth),
    ensures
        !splitters_fine(s, depth),
    decreases s.len() - n,
{
    if n < s.len() {
        assert(s.take(n + 1).drop_last() =~= s.take(n));
        lemma_splitters_fine(s, n + 1, depth);
    } else {
        assert(s.take(n) =~= s);
    }
}

#[verifier::loop_isolation(false)]
fn is_splitter_fine(v: &Value, depth: u8) -> (res: bool)
    ensures
        res == splitter_fine(json::tree(*v), depth as nat),
    decreases depth,
{
    if kind_of(v) != JsonKind::Object {
        return false;
    }
    if let Some(n) = whole_of(v, "length") {
        if n == 0 {
            return false;
        }
    }
    if !is_search_fine(v) {
        return false;
    }
    if member(v, "pretokenizers").is_none() {
        return true;
    }
    if depth == 0 {
        return false;
    }
    let items = match items_of(v, "pretokenizers") {
        Some(items) => items,
        None => {
            return false;
        },
    };
    let ghost all = json::trees(items@);
    let mut i: usize = 0;
    assert(all.take(0) =~= Seq::empty());
    while i < items.len()
        invariant
            i <= items@.len(),
            depth > 0,
            all == json::trees(items@),
            splitters_fine(all.take(i as int), (depth - 1) as nat),
        decreases items@.len() - i,
    {
        assert(all.take(i + 1).drop_last() =~= all.take(i as int));
        assert(all.take(i + 1).last() == json::tree(items@[i as int]));
        if !is_splitter_fine(&items[i], depth - 1) {
            proof {
                lemma_splitters_fine(all, i + 1, (depth - 1) as nat);
            }
            return false;
        }
        i += 1;
    }
    assert(all.take(i as int) =~= all);
    true
}

/// Whether a decoder counts back from the last token: one of that sort does, or
/// one of no known sort that tells a suffix.
pub open spec fn counts_back(d: JsonTree) -> bool {
    match text_at(d, "type"@) {
        Some(k) => k == "BPEDecoder"@ || (!other_sort(k) && d.member("suffix"@) is Some),
        None => d.member("suffix"@) is Some,
    }
}

/// The other sorts of decoders.
pub open spec fn other_sort(k: Seq<char>) -> bool {
    ||| k == "ByteLevel"@
    ||| k == "WordPiece"@
    ||| k == "Metaspace"@
    ||| k == "CTC"@
    ||| k == "Sequence"@
    ||| k == "Replace"@
    ||| k == "Fuse"@
    ||| k == "Strip"@
    ||| k == "ByteFallback"@
}

fn is_other_sort(k: &str) -> (res: bool)
    ensures
        res == other_sort(k@),
{
    same(k, "ByteLevel") || same(k, "WordPiece") || same(k, "Metaspace") || same(k, "CTC") || same(
        k,
        "Sequence",
    ) || same(k, "Replace") || same(k, "Fuse") || same(k, "Strip") || same(k, "ByteFallback")
}

fn does_count_back(v: &Value) -> (res: bool)
    ensures
        res == counts_back(json::tree(*v)),
{
    match text_of(v, "type") {
        Some(k) => same(k, "BPEDecoder") || (!is_other_sort(k) && member(v, "suffix").is_some()),
        None => member(v, "suffix").is_some(),
    }
}

/// What a decoder asks of the tokens that it is given first.
#[derive(Debug, Clone, Copy, PartialEq, Eq, Structural)]
pub enum Asked {
    Nothing,
    /// That there is one.
    One,
    /// That none is used up where `content` is taken off its ends.
    Left { content: char, start: u64, stop: u64 },
}

/// Whether some of a token is left, or just nothing, where up to `start` times
/// `content` is taken off its front and up to `stop` times off its end.
pub open spec fn left_of(token: Seq<char>, content: char, start: u64, stop: u64) -> bool {
    (forall|i: int| 0 <= i < token.len() ==> #[trigger] token[i] == content) ==> start + stop
        <= token.len()
}

/// Whether tokens are as a decoder asks.
pub open spec fn as_asked(a: Asked, tokens: Seq<Seq<char>>) -> bool {
    match a {
        Asked::Nothing => true,
        Asked::One => tokens.len() > 0,
        Asked::Left { content, start, stop } => all_left(tokens, content, start, stop),
    }
}

pub open spec fn all_left(tokens: Seq<Seq<char>>, content: char, start: u64, stop: u64) -> bool {
    forall|i: int| 0 <= i < tokens.len() ==> #[trigger] left_of(tokens[i], content, start, stop)
}

fn is_left_of(token: &str, content: char, start: u64, stop: u64) -> (res: bool)
    ensures
        res == left_of(token@, content, start, stop),
{
    let cs = chars_of(token);
    let mut i: usize = 0;
    while i < cs.len()
        invariant
            i <= cs@.len(),
            cs@ == token@,
            forall|j: int| 0 <= j < i ==> #[trigger] token@[j] == content,
        decreases cs@.len() - i,
    {
        if cs[i] != content {
            assert(token@[i as int] != content);
            return true;
        }
        i += 1;
    }
    let n: u64 = cs.len() as u64;
    start <= n && stop <= n - start
}

/// Whether tokens are as a decoder asks.
pub fn is_as_asked(a: Asked, tokens: &Vec<String>) -> (res: bool)
    ensures
        res == as_asked(a, text::all_chars(tokens@)),
{
    match a {
        Asked::Nothing => true,
        Asked::One => tokens.len() > 0,
        Asked::Left { content, start, stop } => {
            let ghost all = text::all_chars(tokens@);
            let mut i: usize = 0;
            while i < tokens.len()
                invariant
                    a == (Asked::Left { content, start, stop }),
                    i <= tokens@.len(),
                    all == text::all_chars(tokens@),
                    forall|j: int| 0 <= j < i ==> #[trigger] left_of(all[j], content, start, stop),
                decreases tokens@.len() - i,
            {
                if !is_left_of(tokens[i].as_str(), content, start, stop) {
                    assert(!left_of(all[i as int], content, start, stop));
                    assert(!all_left(all, content, start, stop));
                    return false;
                }
                i += 1;
            }
            true
        },
    }
}

/// What a decoder without parts asks, if that can be told.
pub open spec fn alone_asks(d: JsonTree) -> Option<Asked> {
    if counts_back(d) {
        Some(Asked::One)
    } else if d.member("stop"@) is None || whole_at(d, "stop"@) == Some(0u64) {
        Some(Asked::Nothing)
    } else {
        match (text_at(d, "content"@), whole_at(d, "start"@), whole_at(d, "stop"@)) {
            (Some(c), Some(start), Some(stop)) => if c.len() == 1 {
                Some(Asked::Left { content: c[0], start, stop })
            } else {
                None
            },
            _ => None,
        }
    }
}

/// What a decoder asks, if that can be told: a sequence asks what its first part
/// asks, and the others have to ask nothing.
pub open spec fn asks(d: JsonTree, depth: nat) -> Option<Asked>
    decreases depth,
{
    if d !is Object || !sort_fine(d) || !search_fine(d) {
        None
    } else if d.member("decoders"@) is None {
        alone_asks(d)
    } else {
        match list_at(d, "decoders"@) {
            Some(s) => if depth == 0 || alone_asks(d) != Some(Asked::Nothing) {
                None
            } else if s.len() == 0 {
                Some(Asked::Nothing)
            } else if decoders_fine(s.skip(1), (depth - 1) as nat) {
                asks(s[0], (depth - 1) as nat)
            } else {
                None
            },
            None => None,
        }
    }
}

fn alone_asking(v: &Value) -> (res: Option<Asked>)
    ensures
        res == alone_asks(json::tree(*v)),
{
    if does_count_back(v) {
        return Some(Asked::One);
    }
    if member(v, "stop").is_none() {
        return Some(Asked::Nothing);
    }
    let stop: u64 = match whole_of(v, "stop") {
        Some(n) => n,
        None => {
            return None;
        },
    };
    if stop == 0 {
        return Some(Asked::Nothing);
    }
    match (text_of(v, "content"), whole_of(v, "start")) {
        (Some(c), Some(start)) => {
            let cs = chars_of(c);
            if cs.len() == 1 {
                Some(Asked::Left { content: cs[0], start, stop })
            } else {
                None
            }
        },
        _ => None,
    }
}

#[verifier::loop_isolation(false)]
fn asking(v: &Value, depth: u8) -> (res: Option<Asked>)
    ensures
        res == asks(json::tree(*v), depth as nat),
    decreases depth,
{
    if kind_of(v) != JsonKind::Object || !is_sort_fine(v) || !is_search_fine(v) {
        return None;
    }
    if member(v, "decoders").is_none() {
        return alone_asking(v);
    }
    let items = match items_of(v, "decoders") {
        Some(items) => items,
        None => {
            return None;
        },
    };
    let nothing = match alone_asking(v) {
        Some(a) => a == Asked::Nothing,
        None => false,
    };
    if depth == 0 || !nothing {
        return None;
    }
    if items.len() == 0 {
        return Some(Asked::Nothing);
    }
    let ghost all = json::trees(items@);
    let ghost rest = all.skip(1);
    let mut i: usize = 1;
    assert(rest.take(0) =~= Seq::empty());
    while i < items.len()
        invariant
            1 <= i <= items@.len(),
            depth > 0,
            all == json::trees(items@),
            rest == all.skip(1),
            decoders_fine(rest.take(i - 1), (depth - 1) as nat),
        decreases items@.len() - i,
    {
        assert(rest.take(i as int).drop_last() =~= rest.take(i - 1));
        assert(rest.take(i as int).last() == json::tree(items@[i as int]));
        if !is_decoder_fine(&items[i], depth - 1) {
            proof {
                lemma_decoders_fine(rest, i as int, (depth - 1) as nat);
            }
            return None;
        }
        i += 1;
    }
    assert(rest.take(i - 1) =~= rest);
    asking(&items[0], depth - 1)
}

/// Whether a decoder decodes every list of tokens: one that counts back from
/// the last token, or strips the end of a token, does not, nor do some
/// expressions.
pub open spec fn decoder_fine(d: JsonTree, depth: nat) -> bool
    decreases depth, 0nat,
{
    &&& d is Object
    &&& sort_fine(d)
    &&& search_fine(d)
    &&& alone_asks(d) == Some(Asked::Nothing)
    &&& (d.member("decoders"@) is Some ==> depth > 0 && (list_at(d, "decoders"@) matches Some(s)
        && decoders_fine(s, (depth - 1) as nat)))
}

pub open spec fn decoders_fine(s: Seq<JsonTree>, depth: nat) -> bool
    decreases depth, s.len() + 1,
{
    s.len() == 0 || (decoders_fine(s.drop_last(), depth) && decoder_fine(s.last(), depth))
}

proof fn lemma_decoders_fine(s: Seq<JsonTree>, n: int, depth: nat)
    requires
        0 <= n <= s.len(),
        !decoders_fine(s.take(n), depth),
    ensures
        !decoders_fine(s, depth),
    decreases s.len() - n,
{
    if n < s.len() {
        assert(s.take(n + 1).drop_last() =~= s.take(n));
        lemma_decoders_fine(s, n + 1, depth);
    } else {
        assert(s.take(n) =~= s);
    }
}

#[verifier::loop_isolation(false)]
fn is_decoder_fine(v: &Value, depth: u8) -> (res: bool)
    ensures
        res == decoder_fine(json::tree(*v), depth as nat),
    decreases depth,
{
    if kind_of(v) != JsonKind::Object || !is_sort_fine(v) || !is_search_fine(v) {
        return false;
    }
    let nothing = match alone_asking(v) {
        Some(a) => a == Asked::Nothing,
        None => false,
    };
    if !nothing {
        return false;
    }
    if member(v, "decoders").is_none() {
        return true;
    }
    if depth == 0 {
        return false;
    }
    let items = match items_of(v, "decoders") {
        Some(items) => items,
        None => {
            return false;
        },
    };
    let ghost all = json::trees(items@);
    let mut i: usize = 0;
    assert(all.take(0) =~= Seq::empty());
    while i < items.len()
        invariant
            i <= items@.len(),
            depth > 0,
            all == json::trees(items@),
            decoders_fine(all.take(i as int), (depth - 1) as nat),
        decreases items@.len() - i,
    {
        assert(all.take(i + 1).drop_last() =~= all.take(i as int));
        assert(all.take(i + 1).last() == json::tree(items@[i as int]));
        if !is_decoder_fine(&items[i], depth - 1) {
            proof {
                lemma_decoders_fine(all, i + 1, (depth - 1) as nat);
            }
            return false;
        }
        i += 1;
    }
    assert(all.take(i as int) =~= all);
    true
}

/// Whether a piece of a template can be filled in: it stands for the one text
/// that there is, or for a special token whose numbers are told.
pub open spec fn piece_fine(p: JsonTree, specials: Option<JsonTree>) -> bool {
    &&& (p.member("Sequence"@) matches Some(q) ==> text_at(q, "id"@) == Some("A"@))
    &&& (p.member("SpecialToken"@) matches Some(q) ==> (special_under(q, specials) matches Some(e)
        && list_at(e, "ids"@) is Some))
}

/// The special token that a piece names.
pub open spec fn special_under(q: JsonTree, specials: Option<JsonTree>) -> Option<JsonTree> {
    match (text_at(q, "id"@), specials) {
        (Some(id), Some(m)) => m.member(id),
        _ => None,
    }
}

pub open spec fn pieces_fine(s: Seq<JsonTree>, specials: Option<JsonTree>) -> bool {
    forall|i: int| 0 <= i < s.len() ==> #[trigger] piece_fine(s[i], specials)
}

/// Whether a template, if a part is one, can be filled in.
pub open spec fn template_fine(p: JsonTree) -> bool {
    p.member("single"@) is Some ==> (list_at(p, "single"@) matches Some(s) && pieces_fine(
        s,
        p.member("special_tokens"@),
    ))
}

/// Whether a text can be dressed: templates can be filled in, and none follows
/// another.
pub open spec fn processor_fine(p: JsonTree) -> bool {
    &&& p is Object
    &&& template_fine(p)
    &&& (p.member("processors"@) is Some ==> (list_at(p, "processors"@) matches Some(s)
        && parts_fine(s) && templates_in(s) <= 1))
}

/// Whether each of several dressings is fine, and none holds others.
pub open spec fn parts_fine(s: Seq<JsonTree>) -> bool {
    forall|i: int| 0 <= i < s.len() ==> #[trigger] single_part_fine(s[i])
}

pub open spec fn single_part_fine(p: JsonTree) -> bool {
    p is Object && template_fine(p) && p.member("processors"@) is None
}

/// How many of them are templates.
pub open spec fn templates_in(s: Seq<JsonTree>) -> nat
    decreases s.len(),
{
    if s.len() == 0 {
        0
    } else {
        templates_in(s.drop_last()) + if s.last().member("single"@) is Some {
            1nat
        } else {
            0
        }
    }
}

fn special_of<'a>(q: &Value, specials: Option<&'a Value>) -> (res: Option<&'a Value>)
    ensures
        match res {
            Some(m) => special_under(json::tree(*q), opt_tree(specials)) == Some(json::tree(*m)),
            None => special_under(json::tree(*q), opt_tree(specials)) is None,
        },
{
    match (text_of(q, "id"), specials) {
        (Some(id), Some(m)) => member(m, id),
        _ => None,
    }
}

/// What an optional value holds.
pub open spec fn opt_tree(v: Option<&Value>) -> Option<JsonTree> {
    match v {
        Some(v) => Some(json::tree(*v)),
        None => None,
    }
}

fn is_piece_fine(v: &Value, specials: Option<&Value>) -> (res: bool)
    ensures
        res == piece_fine(json::tree(*v), opt_tree(specials)),
{
    if let Some(q) = member(v, "Sequence") {
        if !says(q, "id", "A") {
            return false;
        }
    }
    if let Some(q) = member(v, "SpecialToken") {
        match special_of(q, specials) {
            Some(e) => {
                if items_of(e, "ids").is_none() {
                    return false;
                }
            },
            None => {
                return false;
            },
        }
    }
    true
}

fn is_template_fine(v: &Value) -> (res: bool)
    ensures
        res == template_fine(json::tree(*v)),
{
    if member(v, "single").is_none() {
        return true;
    }
    let items = match items_of(v, "single") {
        Some(items) => items,
        None => {
            return false;
        },
    };
    let specials = member(v, "special_tokens");
    let ghost all = json::trees(items@);
    let ghost told = json::tree(*v).member("special_tokens"@);
    let mut i: usize = 0;
    while i < items.len()
        invariant
            i <= items@.len(),
            all == json::trees(items@),
            told == json::tree(*v).member("special_tokens"@),
            json::tree(*v).member("single"@) is Some,
            list_at(json::tree(*v), "single"@) == Some(all),
            opt_tree(specials) == told,
            forall|j: int| 0 <= j < i ==> #[trigger] piece_fine(all[j], told),
        decreases items@.len() - i,
    {
        if !is_piece_fine(&items[i], specials) {
            assert(!piece_fine(all[i as int], told));
            return false;
        }
        i += 1;
    }
    true
}

fn is_processor_fine(v: &Value) -> (res: bool)
    ensures
        res == processor_fine(json::tree(*v)),
{
    if kind_of(v) != JsonKind::Object || !is_template_fine(v) {
        return false;
    }
    if member(v, "processors").is_none() {
        return true;
    }
    let items = match items_of(v, "processors") {
        Some(items) => items,
        None => {
            return false;
        },
    };
    let ghost all = json::trees(items@);
    let mut n: usize = 0;
    let mut i: usize = 0;
    assert(all.take(0) =~= Seq::empty());
    while i < items.len()
        invariant
            i <= items@.len(),
            all == json::trees(items@),
            json::tree(*v).member("processors"@) is Some,
            list_at(json::tree(*v), "processors"@) == Some(all),
            forall|j: int| 0 <= j < i ==> #[trigger] single_part_fine(all[j]),
            n <= i,
            n == templates_in(all.take(i as int)),
        decreases items@.len() - i,
    {
        let item = &items[i];
        assert(all[i as int] == json::tree(*item));
        assert(all.take(i + 1).drop_last() =~= all.take(i as int));
        if kind_of(item) != JsonKind::Object || !is_template_fine(item) || member(
            item,
            "processors",
        ).is_some() {
            assert(!single_part_fine(all[i as int]));
            return false;
        }
        if member(item, "single").is_some() {
            n += 1;
        }
        i += 1;
    }
    assert(all.take(i as int) =~= all);
    n <= 1
}

pub open spec fn capped(n: int) -> u64 {
    if n < MANY {
        n as u64
    } else {
        MANY
    }
}

/// How many tokens a piece of a template adds.
pub open spec fn piece_adds(p: JsonTree, specials: Option<JsonTree>) -> nat {
    match p.member("SpecialToken"@) {
        Some(q) => match special_under(q, specials) {
            Some(e) => match list_at(e, "ids"@) {
                Some(ids) => ids.len(),
                None => 0,
            },
            None => 0,
        },
        None => 0,
    }
}

pub open spec fn pieces_add(s: Seq<JsonTree>, specials: Option<JsonTree>) -> u64
    decreases s.len(),
{
    if s.len() == 0 {
        0
    } else {
        capped(pieces_add(s.drop_last(), specials) + piece_adds(s.last(), specials))
    }
}

/// How many tokens one dressing adds at most: two where it tells a separator,
/// and those of a template.
pub open spec fn one_adds(p: JsonTree) -> u64 {
    let ends: int = if p.member("sep"@) is Some {
        2
    } else {
        0
    };
    match list_at(p, "single"@) {
        Some(s) => capped(ends + pieces_add(s, p.member("special_tokens"@))),
        None => ends as u64,
    }
}

pub open spec fn all_add(s: Seq<JsonTree>) -> u64
    decreases s.len(),
{
    if s.len() == 0 {
        0
    } else {
        capped(all_add(s.drop_last()) + one_adds(s.last()))
    }
}

/// How many tokens are added to a text at most.
pub open spec fn processor_adds(p: Option<JsonTree>) -> u64 {
    match p {
        Some(p) => match list_at(p, "processors"@) {
            Some(s) => capped(one_adds(p) + all_add(s)),
            None => one_adds(p),
        },
        None => 0,
    }
}

fn cap(n: u64) -> (res: u64)
    ensures
        res == capped(n as int),
{
    if n < MANY {
        n
    } else {
        MANY
    }
}

fn one_addition(v: &Value) -> (res: u64)
    ensures
        res == one_adds(json::tree(*v)),
        res <= MANY,
{
    let ends: u64 = if member(v, "sep").is_some() {
        2
    } else {
        0
    };
    let items = match items_of(v, "single") {
        Some(items) => items,
        None => {
            return ends;
        },
    };
    let specials = member(v, "special_tokens");
    let ghost told = json::tree(*v).member("special_tokens"@);
    let ghost all = json::trees(items@);
    let mut n: u64 = 0;
    let mut i: usize = 0;
    assert(all.take(0) =~= Seq::empty());
    while i < items.len()
        invariant
            i <= items@.len(),
            all == json::trees(items@),
            opt_tree(specials) == told,
            n <= MANY,
            n == pieces_add(all.take(i as int), told),
        decreases items@.len() - i,
    {
        assert(all.take(i + 1).drop_last() =~= all.take(i as int));
        assert(all.take(i + 1).last() == json::tree(items@[i as int]));
        let more: usize = match member(&items[i], "SpecialToken") {
            Some(q) => match special_of(q, specials) {
                Some(e) => match items_of(e, "ids") {
                    Some(ids) => ids.len(),
                    None => 0,
                },
                None => 0,
            },
            None => 0,
        };
        n = if more as u64 >= MANY {
            MANY
        } else {
            cap(n + more as u64)
        };
        i += 1;
    }
    assert(all.take(i as int) =~= all);
    cap(ends + n)
}

fn additions(v: Option<&Value>) -> (res: u64)
    ensures
        res == processor_adds(opt_tree(v)),
{
    let p = match v {
        Some(p) => p,
        None => {
            return 0;
        },
    };
    let own: u64 = one_addition(p);
    let items = match items_of(p, "processors") {
        Some(items) => items,
        None => {
            return own;
        },
    };
    let ghost all = json::trees(items@);
    let mut n: u64 = 0;
    let mut i: usize = 0;
    assert(all.take(0) =~= Seq::empty());
    while i < items.len()
        invariant
            i <= items@.len(),
            all == json::trees(items@),
            n <= MANY,
            n == all_add(all.take(i as int)),
        decreases items@.len() - i,
    {
        assert(all.take(i + 1).drop_last() =~= all.take(i as int));
        assert(all.take(i + 1).last() == json::tree(items@[i as int]));
        n = cap(n + one_addition(&items[i]));
        i += 1;
    }
    assert(all.take(i as int) =~= all);
    cap(own + n)
}

/// Whether a text can be cut: what is left beside at most `added` tokens is more
/// than the overlap; or everything is cut and nothing added.
pub open spec fn truncation_fine(t: JsonTree, added: u64) -> bool {
    &&& t is Object
    &&& match (whole_at(t, "max_length"@), whole_at(t, "stride"@)) {
        (Some(l), Some(s)) => added < MANY && ((l == 0 && added == 0) || s + added < l),
        _ => true,
    }
}

fn is_truncation_fine(v: &Value, added: u64) -> (res: bool)
    ensures
        res == truncation_fine(json::tree(*v), added),
{
    if kind_of(v) != JsonKind::Object {
        return false;
    }
    match (whole_of(v, "max_length"), whole_of(v, "stride")) {
        (Some(l), Some(s)) => added < MANY && ((l == 0 && added == 0) || (l > added && s < l
            - added)),
        _ => true,
    }
}

/// Whether a text can be padded: not to more tokens than there is room for.
pub open spec fn padding_fine(p: JsonTree) -> bool {
    &&& p is Object
    &&& (p.member("strategy"@) matches Some(s) ==> (whole_at(s, "Fixed"@) matches Some(n) ==> n
        <= MOST_PADDING))
    &&& (whole_at(p, "pad_to_multiple_of"@) matches Some(n) ==> n <= MOST_PADDING)
}

fn is_padding_fine(v: &Value) -> (res: bool)
    ensures
        res == padding_fine(json::tree(*v)),
{
    if kind_of(v) != JsonKind::Object {
        return false;
    }
    if let Some(s) = member(v, "strategy") {
        if let Some(n) = whole_of(s, "Fixed") {
            if n > MOST_PADDING {
                return false;
            }
        }
    }
    match whole_of(v, "pad_to_multiple_of") {
        Some(n) => n <= MOST_PADDING,
        None => true,
    }
}

/// The number of a word in a model's vocabulary.
pub open spec fn number_of(model: Option<JsonTree>, word: Seq<char>) -> Option<u64> {
    match model {
        Some(m) => match m.member("vocab"@) {
            Some(v) => whole_at(v, word),
            None => None,
        },
        None => None,
    }
}

/// Whether a word has a flag.
pub open spec fn flagged(s: Seq<JsonTree>, flag: Seq<char>) -> bool {
    exists|i: int| 0 <= i < s.len() && flag_at(#[trigger] s[i], flag)
}

fn is_flagged(items: &Vec<Value>, flag: &str) -> (res: bool)
    ensures
        res == flagged(json::trees(items@), flag@),
{
    let ghost all = json::trees(items@);
    let mut i: usize = 0;
    while i < items.len()
        invariant
            i <= items@.len(),
            all == json::trees(items@),
            forall|j: int| 0 <= j < i ==> !flag_at(#[trigger] all[j], flag@),
        decreases items@.len() - i,
    {
        if flag_of(&items[i], flag) {
            assert(flag_at(all[i as int], flag@));
            return true;
        }
        i += 1;
    }
    false
}

/// Whether words are taken with the spaces on both sides of them: there are
/// some that take those in front, and some that take those behind.
pub open spec fn strip_both(s: Seq<JsonTree>) -> bool {
    flagged(s, "lstrip"@) && flagged(s, "rstrip"@)
}

/// Whether a word can be added to those of the model: its number leaves room
/// for others and normalizing leaves something of it. Where words are taken with
/// the spaces on both sides, no space begins it either, as it stands or
/// normalized: those spaces could be taken already.
pub open spec fn word_fine(
    t: JsonTree,
    both: bool,
    model: Option<JsonTree>,
    normalizer: Option<JsonTree>,
) -> bool {
    match text_at(t, "content"@) {
        Some(c) => {
            &&& (number_of(model, c) matches Some(n) ==> n < MOST_NUMBERS)
            &&& (both && c.len() > 0 ==> !text::is_space(c[0]))
            &&& (flag_at(t, "normalized"@) ==> (normalizer matches Some(n) ==> idle(n) || (
            keeps_text(n, NESTING as nat) && !both)))
        },
        None => true,
    }
}

fn is_word_fine(
    v: &Value,
    both: bool,
    model: Option<&Value>,
    normalizer: Option<&Value>,
) -> (res: bool)
    ensures
        res == word_fine(json::tree(*v), both, opt_tree(model), opt_tree(normalizer)),
{
    let c = match text_of(v, "content") {
        Some(c) => c,
        None => {
            return true;
        },
    };
    if let Some(m) = model {
        if let Some(words) = member(m, "vocab") {
            if let Some(n) = whole_of(words, c) {
                if n >= MOST_NUMBERS {
                    return false;
                }
            }
        }
    }
    let cs = chars_of(c);
    if both && cs.len() > 0 && space(cs[0]) {
        return false;
    }
    if flag_of(v, "normalized") {
        if let Some(n) = normalizer {
            return is_idle(n) || (does_keep_text(n, NESTING) && !both);
        }
    }
    true
}

pub open spec fn words_fine(
    s: Seq<JsonTree>,
    model: Option<JsonTree>,
    normalizer: Option<JsonTree>,
) -> bool {
    forall|i: int|
        0 <= i < s.len() ==> #[trigger] word_fine(s[i], strip_both(s), model, normalizer)
}

fn are_words_fine(items: &Vec<Value>, model: Option<&Value>, normalizer: Option<&Value>) -> (res:
    bool)
    ensures
        res == words_fine(json::trees(items@), opt_tree(model), opt_tree(normalizer)),
{
    let ghost all = json::trees(items@);
    let both = is_flagged(items, "lstrip") && is_flagged(items, "rstrip");
    let mut i: usize = 0;
    while i < items.len()
        invariant
            i <= items@.len(),
            all == json::trees(items@),
            both == strip_both(all),
            forall|j: int|
                0 <= j < i ==> #[trigger] word_fine(
                    all[j],
                    both,
                    opt_tree(model),
                    opt_tree(normalizer),
                ),
        decreases items@.len() - i,
    {
        if !is_word_fine(&items[i], both, model, normalizer) {
            assert(!word_fine(all[i as int], both, opt_tree(model), opt_tree(normalizer)));
            return false;
        }
        i += 1;
    }
    true
}

/// How many bytes a character takes.
pub open spec fn char_bytes(c: char) -> nat {
    if '\u{80}' > c {
        1
    } else if '\u{800}' > c {
        2
    } else if '\u{10000}' > c {
        3
    } else {
        4
    }
}

/// How many bytes a text takes.
pub open spec fn byte_len(s: Seq<char>) -> nat
    decreases s.len(),
{
    if s.len() == 0 {
        0
    } else {
        byte_len(s.drop_last()) + char_bytes(s.last())
    }
}

/// Whether a text, from a character on, can be cut after `n` bytes.
pub open spec fn cuts(s: Seq<char>, from: int, n: nat) -> bool {
    exists|k: int| from <= k <= s.len() && #[trigger] byte_len(s.subrange(from, k)) == n
}

fn bytes_of(cs: &Vec<char>) -> (res: u128)
    ensures
        res == byte_len(cs@),
        res <= 4 * cs@.len(),
{
    let mut n: u128 = 0;
    let mut i: usize = 0;
    assert(cs@.take(0) =~= Seq::empty());
    while i < cs.len()
        invariant
            i <= cs@.len(),
            n == byte_len(cs@.take(i as int)),
            n <= 4 * i,
        decreases cs@.len() - i,
    {
        assert(cs@.take(i + 1).drop_last() =~= cs@.take(i as int));
        n = n + width(cs[i]);
        i += 1;
    }
    assert(cs@.take(i as int) =~= cs@);
    n
}

fn width(c: char) -> (res: u128)
    ensures
        res == char_bytes(c),
{
    if '\u{80}' > c {
        1
    } else if '\u{800}' > c {
        2
    } else if '\u{10000}' > c {
        3
    } else {
        4
    }
}

fn can_cut(cs: &Vec<char>, from: usize, n: u128) -> (res: bool)
    requires
        from <= cs@.len(),
    ensures
        res == cuts(cs@, from as int, n as nat),
{
    let mut total: u128 = 0;
    let mut k: usize = from;
    assert(cs@.subrange(from as int, from as int) =~= Seq::empty());
    while k < cs.len()
        invariant
            from <= k <= cs@.len(),
            total == byte_len(cs@.subrange(from as int, k as int)),
            total <= 4 * (k - from),
            forall|j: int| from <= j < k ==> byte_len(cs@.subrange(from as int, j)) != n,
        decreases cs@.len() - k,
    {
        if total == n {
            return true;
        }
        assert(cs@.subrange(from as int, k + 1).drop_last() =~= cs@.subrange(
            from as int,
            k as int,
        ));
        total = total + width(cs[k]);
        k += 1;
    }
    total == n
}

/// Whether a merge joins words that its model can join: the second one is cut
/// after the `n` bytes of the prefix.
pub open spec fn merge_fine(m: JsonTree, n: nat) -> bool {
    match m {
        JsonTree::List(s) => s.len() == 2 ==> (s[1].as_text() matches Some(b) ==> cuts(b, 0, n)),
        JsonTree::Text(l) => line_fine(l, n),
        _ => true,
    }
}

/// The same for a merge that is spelled on a line, with a space between.
pub open spec fn line_fine(l: Seq<char>, n: nat) -> bool {
    forall|k: int| 0 <= k < l.len() && #[trigger] l[k] == ' ' ==> cuts(l, k + 1, n)
}

fn is_merge_fine(v: &Value, n: u128) -> (res: bool)
    ensures
        res == merge_fine(json::tree(*v), n as nat),
{
    if let Some(items) = items_in(v) {
        if items.len() == 2 {
            assert(json::trees(items@)[1] == json::tree(items@[1]));
            return match text_in(&items[1]) {
                Some(b) => can_cut(&chars_of(b), 0, n),
                None => true,
            };
        }
        return true;
    }
    let l = match text_in(v) {
        Some(l) => chars_of(l),
        None => {
            return true;
        },
    };
    let mut k: usize = 0;
    while k < l.len()
        invariant
            k <= l@.len(),
            json::tree(*v) == JsonTree::Text(l@),
            forall|j: int| 0 <= j < k && #[trigger] l@[j] == ' ' ==> cuts(l@, j + 1, n as nat),
        decreases l@.len() - k,
    {
        if l[k] == ' ' && !can_cut(&l, k + 1, n) {
            assert(l@[k as int] == ' ' && !cuts(l@, k + 1, n as nat));
            assert(!line_fine(l@, n as nat));
            return false;
        }
        k += 1;
    }
    true
}

/// Whether a model can be made of its merges.
pub open spec fn merges_fine(model: JsonTree) -> bool {
    match (text_at(model, "continuing_subword_prefix"@), list_at(model, "merges"@)) {
        (Some(p), Some(ms)) => each_merge_fine(ms, byte_len(p)),
        _ => true,
    }
}

pub open spec fn each_merge_fine(ms: Seq<JsonTree>, n: nat) -> bool {
    forall|i: int| 0 <= i < ms.len() ==> #[trigger] merge_fine(ms[i], n)
}

fn are_merges_fine(v: &Value) -> (res: bool)
    ensures
        res == merges_fine(json::tree(*v)),
{
    let (p, items) = match (text_of(v, "continuing_subword_prefix"), items_of(v, "merges")) {
        (Some(p), Some(items)) => (p, items),
        _ => {
            return true;
        },
    };
    let ghost all = json::trees(items@);
    let n: u128 = bytes_of(&chars_of(p));
    let mut i: usize = 0;
    while i < items.len()
        invariant
            i <= items@.len(),
            all == json::trees(items@),
            list_at(json::tree(*v), "merges"@) == Some(all),
            text_at(json::tree(*v), "continuing_subword_prefix"@) == Some(p@),
            n == byte_len(p@),
            forall|j: int| 0 <= j < i ==> #[trigger] merge_fine(all[j], byte_len(p@)),
        decreases items@.len() - i,
    {
        if !is_merge_fine(&items[i], n) {
            assert(!merge_fine(all[i as int], byte_len(p@)));
            assert(!each_merge_fine(all, byte_len(p@)));
            return false;
        }
        i += 1;
    }
    true
}

/// Whether a word of a list of words, with its score, is of usual length.
pub open spec fn listed_fine(w: JsonTree) -> bool {
    match w {
        JsonTree::List(s) => s.len() > 0 ==> (s[0].as_text() matches Some(c) ==> c.len()
            <= LONGEST_WORD),
        _ => true,
    }
}

/// Whether the words of a model that lists them are.
pub open spec fn list_fine(model: JsonTree) -> bool {
    match list_at(model, "vocab"@) {
        Some(ws) => each_listed_fine(ws),
        None => true,
    }
}

pub open spec fn each_listed_fine(ws: Seq<JsonTree>) -> bool {
    forall|i: int| 0 <= i < ws.len() ==> #[trigger] listed_fine(ws[i])
}

fn is_list_fine(v: &Value) -> (res: bool)
    ensures
        res == list_fine(json::tree(*v)),
{
    let items = match items_of(v, "vocab") {
        Some(items) => items,
        None => {
            return true;
        },
    };
    let ghost all = json::trees(items@);
    let mut i: usize = 0;
    while i < items.len()
        invariant
            i <= items@.len(),
            all == json::trees(items@),
            list_at(json::tree(*v), "vocab"@) == Some(all),
            forall|j: int| 0 <= j < i ==> #[trigger] listed_fine(all[j]),
        decreases items@.len() - i,
    {
        let w = &items[i];
        assert(all[i as int] == json::tree(*w));
        if let Some(pair) = items_in(w) {
            if pair.len() > 0 {
                assert(json::trees(pair@)[0] == json::tree(pair@[0]));
                if let Some(c) = text_in(&pair[0]) {
                    if chars_of(c).len() > LONGEST_WORD {
                        assert(!listed_fine(all[i as int]));
                        assert(!each_listed_fine(all));
                        return false;
                    }
                }
            }
        }
        i += 1;
    }
    true
}

/// What the decoder of a description asks of the first tokens, if that can be
/// told.
pub open spec fn asked(t: JsonTree) -> Option<Asked> {
    match part(t, "decoder"@) {
        Some(d) => asks(d, NESTING as nat),
        None => Some(Asked::Nothing),
    }
}

/// What the decoder of a description asks of the first tokens.
pub fn what_is_asked(v: &Value) -> (res: Option<Asked>)
    ensures
        res == asked(json::tree(*v)),
{
    match part_of(v, "decoder") {
        Some(d) => asking(d, NESTING),
        None => Some(Asked::Nothing),
    }
}

/// Whether a description makes a tokenizer that works on every text, if it
/// makes one at all; and on all tokens that are as its decoder asks.
pub open spec fn sound(t: JsonTree) -> bool {
    let normalizer = part(t, "normalizer"@);
    let model = part(t, "model"@);
    let dressing = part(t, "post_processor"@);
    &&& t is Object
    &&& (model matches Some(m) ==> m is Object && merges_fine(m) && list_fine(m))
    &&& (normalizer matches Some(n) ==> normalizer_fine(n, NESTING as nat))
    &&& (part(t, "pre_tokenizer"@) matches Some(p) ==> splitter_fine(p, NESTING as nat))
    &&& (dressing matches Some(p) ==> processor_fine(p))
    &&& asked(t) is Some
    &&& (part(t, "truncation"@) matches Some(c) ==> truncation_fine(c, processor_adds(dressing)))
    &&& (part(t, "padding"@) matches Some(p) ==> padding_fine(p))
    &&& (list_at(t, "added_tokens"@) matches Some(ws) ==> words_fine(ws, model, normalizer))
}

/// Whether a description is sound.
pub fn is_sound(v: &Value) -> (res: bool)
    ensures
        res == sound(json::tree(*v)),
{
    if kind_of(v) != JsonKind::Object {
        return false;
    }
    let model = part_of(v, "model");
    if let Some(m) = model {
        if kind_of(m) != JsonKind::Object || !are_merges_fine(m) || !is_list_fine(m) {
            return false;
        }
    }
    let normalizer = part_of(v, "normalizer");
    if let Some(n) = normalizer {
        if !is_normalizer_fine(n, NESTING) {
            return false;
        }
    }
    if let Some(p) = part_of(v, "pre_tokenizer") {
        if !is_splitter_fine(p, NESTING) {
            return false;
        }
    }
    let dressing = part_of(v, "post_processor");
    if let Some(p) = dressing {
        if !is_processor_fine(p) {
            return false;
        }
    }
    if what_is_asked(v).is_none() {
        return false;
    }
    if let Some(c) = part_of(v, "truncation") {
        if !is_truncation_fine(c, additions(dressing)) {
            return false;
        }
    }
    if let Some(p) = part_of(v, "padding") {
        if !is_padding_fine(p) {
            return false;
        }
    }
    match items_of(v, "added_tokens") {
        Some(ws) => are_words_fine(ws, model, normalizer),
        None => true,
    }
}

/// How many colons stand outside texts, from a character on.
pub open spec fn colons_from(s: Seq<char>, i: int, inside: bool, escaped: bool) -> nat
    decreases s.len() - i,
{
    if i < 0 || i >= s.len() {
        0
    } else if escaped {
        colons_from(s, i + 1, inside, false)
    } else if inside {
        colons_from(s, i + 1, s[i] != '"', s[i] == '\\')
    } else {
        colons_from(s, i + 1, s[i] == '"', false) + if s[i] == ':' {
            1nat
        } else {
            0
        }
    }
}

/// How many members the objects of a JSON text name.
pub open spec fn names_told(s: Seq<char>) -> nat {
    colons_from(s, 0, false, false)
}

/// Whether no object of a text that says `t` names a member twice: as many are
/// told as `t` has.
pub open spec fn names_once(s: Seq<char>, t: JsonTree) -> bool {
    names_told(s) == names_told(json::json_text(t))
}

/// Whether a text describes a tokenizer that works on every text, if it
/// describes one.
pub open spec fn describes_sound(s: Seq<char>) -> bool {
    json::json_read(s) matches Some(t) && sound(t) && names_once(s, t)
}

/// Whether the tokenizer that a text describes can decode these tokens.
pub open spec fn decodes(s: Seq<char>, tokens: Seq<Seq<char>>) -> bool {
    json::json_read(s) matches Some(t) && (asked(t) matches Some(a) && as_asked(a, tokens))
}

/// Whether the tokenizer that a text describes finds the same in a text each
/// time: its model drops no merges at random.
pub open spec fn settled(s: Seq<char>) -> bool {
    json::json_read(s) matches Some(t) && (part(t, "model"@) matches Some(m) ==> part(
        m,
        "dropout"@,
    ) is None)
}

fn count_names(s: &str) -> (res: usize)
    ensures
        res == names_told(s@),
{
    let cs = chars_of(s);
    let mut n: usize = 0;
    let mut inside: bool = false;
    let mut escaped: bool = false;
    let mut i: usize = 0;
    while i < cs.len()
        invariant
            i <= cs@.len(),
            cs@ == s@,
            n <= i,
            n + colons_from(s@, i as int, inside, escaped) == names_told(s@),
        decreases cs@.len() - i,
    {
        let c = cs[i];
        if escaped {
            escaped = false;
        } else if inside {
            inside = c != '"';
            escaped = c == '\\';
        } else {
            inside = c == '"';
            if c == ':' {
                n += 1;
            }
        }
        i += 1;
    }
    n
}

/// Whether a description is sound, given what it says.
pub fn is_described_sound(s: &str, v: &Value) -> (res: bool)
    requires
        json::json_read(s@) == Some(json::tree(*v)),
    ensures
        res == describes_sound(s@),
{
    is_sound(v) && count_names(s) == count_names(show(v).as_str())
}

/// A description of nothing but a model, whose merges and words are fine, is
/// sound, and asks nothing of the tokens.
pub proof fn law_plain_description(t: JsonTree, m: JsonTree, words: Seq<Seq<char>>)
    requires
        t is Object,
        part(t, "model"@) == Some(m),
        m is Object,
        list_at(m, "merges"@) is None,
        list_at(m, "vocab"@) is None,
        part(t, "normalizer"@) is None,
        part(t, "pre_tokenizer"@) is None,
        part(t, "post_processor"@) is None,
        part(t, "decoder"@) is None,
        part(t, "truncation"@) is None,
        part(t, "padding"@) is None,
        list_at(t, "added_tokens"@) is None,
    ensures
        sound(t),
        asked(t) == Some(Asked::Nothing),
        as_asked(Asked::Nothing, words),
{
}

/// What is not an object describes nothing.
pub proof fn law_only_objects_describe(t: JsonTree)
    requires
        !(t is Object),
    ensures
        !sound(t),
{
}

/// A decoder that takes characters off both ends asks that a token of nothing
/// else be long enough; one that asks for a first token asks for one.
pub proof fn law_tokens_asked_for(token: Seq<char>, content: char, start: u64, stop: u64)
    ensures
        (exists|i: int| 0 <= i < token.len() && #[trigger] token[i] != content) ==> left_of(
            token,
            content,
            start,
            stop,
        ),
        start + stop <= token.len() ==> left_of(token, content, start, stop),
        (forall|i: int| 0 <= i < token.len() ==> #[trigger] token[i] == content) && start + stop
            > token.len() ==> !left_of(token, content, start, stop),
        as_asked(Asked::One, seq![token]),
        !as_asked(Asked::One, Seq::empty()),
        as_asked(Asked::Left { content, start, stop }, seq![token]) <==> left_of(
            token,
            content,
            start,
            stop,
        ),
{
    assert(seq![token][0] == token);
    if as_asked(Asked::Left { content, start, stop }, seq![token]) {
        assert(left_of(seq![token][0], content, start, stop));
    }
}

} // verus!
