//! Text building blocks: decimal and hexadecimal rendering, joining, trimming
//! and searching, all stated over sequences of characters.
use vstd::prelude::*;

verus! {

/// `String::push` appends one character at the end.
pub assume_specification[ String::push ](s: &mut String, c: char)
    ensures
        final(s)@ == old(s)@.push(c),
;

/// The optional text as an optional sequence of characters.
pub open spec fn opt_chars(o: Option<String>) -> Option<Seq<char>> {
    match o {
        Some(s) => Some(s@),
        None => None,
    }
}

/// The texts as sequences of characters.
pub open spec fn all_chars(v: Seq<String>) -> Seq<Seq<char>> {
    v.map_values(|s: String| s@)
}

/// A copy of an optional text.
pub fn clone_opt(o: &Option<String>) -> (res: Option<String>)
    ensures
        res == *o,
{
    match o {
        Some(s) => Some(s.clone()),
        None => None,
    }
}

/// A copy of a list of texts.
pub fn clone_texts(v: &Vec<String>) -> (res: Vec<String>)
    ensures
        res@ == v@,
{
    let res = v.clone();
    assert(res@ =~= v@);
    res
}

/// The decimal digit `d` as a character.
pub open spec fn digit_char(d: int) -> char {
    (48 + d) as char
}

/// The decimal rendering of `n`, without leading zeros.
pub open spec fn dec(n: nat) -> Seq<char>
    decreases n,
{
    if n < 10 {
        seq![digit_char(n as int)]
    } else {
        dec(n / 10).push(digit_char((n % 10) as int))
    }
}

fn digit(d: u64) -> (c: char)
    requires
        d < 10,
    ensures
        c == digit_char(d as int),
{
    match d {
        0 => '0',
        1 => '1',
        2 => '2',
        3 => '3',
        4 => '4',
        5 => '5',
        6 => '6',
        7 => '7',
        8 => '8',
        _ => '9',
    }
}

/// Renders `n` in decimal.
pub fn decimal(n: u64) -> (res: String)
    ensures
        res@ == dec(n as nat),
    decreases n,
{
    if n < 10 {
        let mut s = String::new();
        s.push(digit(n));
        assert(s@ =~= seq![digit_char(n as int)]);
        s
    } else {
        let mut s = decimal(n / 10);
        s.push(digit(n % 10));
        s
    }
}

/// The characters of `s`, one by one.
pub fn chars_of(s: &str) -> (res: Vec<char>)
    ensures
        res@ == s@,
{
    let mut res: Vec<char> = Vec::new();
    for c in it: s.chars()
        invariant
            res@ =~= s@.take(it.index()),
            it.seq() == s@,
    {
        res.push(c);
    }
    assert(s@.take(s@.len() as int) =~= s@);
    res
}

/// The text made of the characters `cs[from..to]`.
pub fn text_of(cs: &Vec<char>, from: usize, to: usize) -> (res: String)
    requires
        from <= to <= cs@.len(),
    ensures
        res@ == cs@.subrange(from as int, to as int),
{
    let mut res = String::new();
    let mut i: usize = from;
    while i < to
        invariant
            from <= i <= to <= cs@.len(),
            res@ == cs@.subrange(from as int, i as int),
        decreases to - i,
    {
        res.push(cs[i]);
        assert(cs@.subrange(from as int, i + 1) =~= cs@.subrange(from as int, i as int).push(cs@[i as int]));
        i += 1;
    }
    res
}

/// Whether two texts are the same.
pub fn same(a: &str, b: &str) -> (res: bool)
    ensures
        res == (a@ == b@),
{
    a.to_string() == b.to_string()
}

/// Whether `c` is a decimal digit.
pub open spec fn is_digit(c: char) -> bool {
    '0' <= c && c <= '9'
}

/// The number that decimal digits spell.
pub open spec fn digits_value(cs: Seq<char>) -> nat
    decreases cs.len(),
{
    if cs.len() == 0 {
        0
    } else {
        10 * digits_value(cs.drop_last()) + (cs.last() as nat - '0' as nat) as nat
    }
}

/// A text without the plus sign in front of it.
pub open spec fn unsigned(cs: Seq<char>) -> Seq<char> {
    if cs.len() > 0 && cs[0] == '+' {
        cs.drop_first()
    } else {
        cs
    }
}

/// Whether a text is made of one decimal digit or more.
pub open spec fn all_digits(cs: Seq<char>) -> bool {
    cs.len() > 0 && forall|i: int| 0 <= i < cs.len() ==> is_digit(#[trigger] cs[i])
}

/// The unsigned number that a text spells: one or more decimal digits, behind
/// a plus sign or not, and no more than `max`.
pub open spec fn number(cs: Seq<char>, max: nat) -> Option<nat> {
    let ds = unsigned(cs);
    if all_digits(ds) && digits_value(ds) <= max {
        Some(digits_value(ds))
    } else {
        None
    }
}

/// Digits in front make a number no smaller.
proof fn lemma_digits_grow(cs: Seq<char>, n: int)
    requires
        0 <= n <= cs.len(),
    ensures
        digits_value(cs.take(n)) <= digits_value(cs),
    decreases cs.len() - n,
{
    if n < cs.len() {
        lemma_digits_grow(cs, n + 1);
        assert(cs.take(n + 1).drop_last() =~= cs.take(n));
    } else {
        assert(cs.take(n) =~= cs);
    }
}

/// Reads an unsigned number.
pub fn parse_number(s: &str, max: u64) -> (res: Option<u64>)
    ensures
        match res {
            Some(n) => number(s@, max as nat) == Some(n as nat),
            None => number(s@, max as nat) is None,
        },
{
    let cs = chars_of(s);
    let from: usize = if cs.len() > 0 && cs[0] == '+' {
        1
    } else {
        0
    };
    let ghost ds = cs@.skip(from as int);
    assert(ds =~= unsigned(s@));
    if from == cs.len() {
        return None;
    }
    let mut n: u64 = 0;
    let mut i: usize = from;
    assert(ds.take(0) =~= Seq::empty());
    while i < cs.len()
        invariant
            from <= i <= cs@.len(),
            cs@ == s@,
            ds == cs@.skip(from as int),
            ds == unsigned(s@),
            n == digits_value(ds.take(i - from)),
            n <= max,
            forall|j: int| 0 <= j < i - from ==> is_digit(#[trigger] ds[j]),
        decreases cs@.len() - i,
    {
        let c = cs[i];
        assert(ds[i - from] == c);
        assert(ds.take(i - from + 1).drop_last() =~= ds.take(i - from));
        if !('0' <= c && c <= '9') {
            assert(!is_digit(ds[i - from]));
            return None;
        }
        let d: u64 = (c as u32 - '0' as u32) as u64;
        proof {
            lemma_digits_grow(ds, i - from + 1);
        }
        if n > max / 10 || d > max || n * 10 > max - d {
            return None;
        }
        n = n * 10 + d;
        i += 1;
    }
    assert(ds.take(i - from) =~= ds);
    Some(n)
}

/// The texts with `sep` between them.
pub open spec fn joined(parts: Seq<Seq<char>>, sep: Seq<char>) -> Seq<char>
    decreases parts.len(),
{
    if parts.len() == 0 {
        Seq::empty()
    } else if parts.len() == 1 {
        parts[0]
    } else {
        joined(parts.drop_last(), sep) + sep + parts.last()
    }
}

/// Joins texts with `sep` between them.
pub fn join(parts: &Vec<String>, sep: &str) -> (res: String)
    ensures
        res@ == joined(all_chars(parts@), sep@),
{
    let mut res = String::new();
    let mut i: usize = 0;
    let ghost all = all_chars(parts@);
    assert(all.take(0) =~= Seq::empty());
    while i < parts.len()
        invariant
            i <= parts@.len(),
            all == all_chars(parts@),
            res@ == joined(all.take(i as int), sep@),
        decreases parts@.len() - i,
    {
        if i > 0 {
            res.append(sep);
        }
        res.append(parts[i].as_str());
        assert(all.take(i + 1).drop_last() =~= all.take(i as int));
        assert(res@ =~= joined(all.take(i + 1), sep@));
        i += 1;
    }
    assert(all.take(i as int) =~= all);
    res
}

/// The decimal renderings of numbers.
pub open spec fn decs(ns: Seq<nat>) -> Seq<Seq<char>> {
    ns.map_values(|n: nat| dec(n))
}

/// Numbers in square brackets, with `sep` between them.
pub open spec fn list_text(ns: Seq<nat>, sep: Seq<char>) -> Seq<char> {
    "["@ + joined(decs(ns), sep) + "]"@
}

/// The numbers as such.
pub open spec fn nats_of_u32(v: Seq<u32>) -> Seq<nat> {
    v.map_values(|n: u32| n as nat)
}

/// The numbers as such.
pub open spec fn nats_of_usize(v: Seq<usize>) -> Seq<nat> {
    v.map_values(|n: usize| n as nat)
}

/// Renders numbers in square brackets, with `sep` between them.
pub fn list_of_u32(v: &[u32], sep: &str) -> (res: String)
    ensures
        res@ == list_text(nats_of_u32(v@), sep@),
{
    let mut parts: Vec<String> = Vec::new();
    let mut i: usize = 0;
    while i < v.len()
        invariant
            i <= v@.len(),
            all_chars(parts@) =~= decs(nats_of_u32(v@)).take(i as int),
        decreases v@.len() - i,
    {
        let ghost before = parts@;
        let one = decimal(v[i] as u64);
        parts.push(one);
        assert(decs(nats_of_u32(v@))[i as int] == one@);
        assert(all_chars(parts@) =~= all_chars(before).push(one@));
        i += 1;
    }
    assert(all_chars(parts@) =~= decs(nats_of_u32(v@)));
    let mut res = "[".to_string();
    res.append(join(&parts, sep).as_str());
    res.append("]");
    res
}

/// Renders numbers in square brackets, with `sep` between them.
pub fn list_of_usize(v: &[usize], sep: &str) -> (res: String)
    ensures
        res@ == list_text(nats_of_usize(v@), sep@),
{
    let mut parts: Vec<String> = Vec::new();
    let mut i: usize = 0;
    while i < v.len()
        invariant
            i <= v@.len(),
            all_chars(parts@) =~= decs(nats_of_usize(v@)).take(i as int),
        decreases v@.len() - i,
    {
        let ghost before = parts@;
        let one = decimal(v[i] as u64);
        parts.push(one);
        assert(decs(nats_of_usize(v@))[i as int] == one@);
        assert(all_chars(parts@) =~= all_chars(before).push(one@));
        i += 1;
    }
    assert(all_chars(parts@) =~= decs(nats_of_usize(v@)));
    let mut res = "[".to_string();
    res.append(join(&parts, sep).as_str());
    res.append("]");
    res
}

/// A text without the characters `c` at its end.
pub open spec fn trimmed_end(s: Seq<char>, c: char) -> Seq<char>
    decreases s.len(),
{
    if s.len() > 0 && s.last() == c {
        trimmed_end(s.drop_last(), c)
    } else {
        s
    }
}

/// Cuts the characters `c` off the end of a text.
pub fn trim_end_char(s: &str, c: char) -> (res: String)
    ensures
        res@ == trimmed_end(s@, c),
{
    let cs = chars_of(s);
    let mut to: usize = cs.len();
    assert(cs@.take(to as int) =~= s@);
    while to > 0 && cs[to - 1] == c
        invariant
            to <= cs@.len(),
            trimmed_end(cs@.take(to as int), c) == trimmed_end(s@, c),
        decreases to,
    {
        assert(cs@.take(to as int).drop_last() =~= cs@.take(to - 1));
        to -= 1;
    }
    let res = text_of(&cs, 0, to);
    assert(cs@.subrange(0, to as int) =~= cs@.take(to as int));
    res
}

/// Whether `s` starts with `p`.
pub open spec fn begins(s: Seq<char>, p: Seq<char>) -> bool {
    p.len() <= s.len() && s.take(p.len() as int) == p
}

/// Whether `s` ends with `p`.
pub open spec fn ends(s: Seq<char>, p: Seq<char>) -> bool {
    p.len() <= s.len() && s.skip(s.len() - p.len()) == p
}

/// Whether a text starts with another.
pub fn starts_with(s: &str, p: &str) -> (res: bool)
    ensures
        res == begins(s@, p@),
{
    let a = chars_of(s);
    let b = chars_of(p);
    if b.len() > a.len() {
        return false;
    }
    let n: usize = b.len();
    let head = text_of(&a, 0, n);
    assert(a@.subrange(0, n as int) =~= s@.take(p@.len() as int));
    same(head.as_str(), p)
}

/// Whether a text ends with another.
pub fn ends_with(s: &str, p: &str) -> (res: bool)
    ensures
        res == ends(s@, p@),
{
    let a = chars_of(s);
    let b = chars_of(p);
    if b.len() > a.len() {
        return false;
    }
    let from: usize = a.len() - b.len();
    let to: usize = a.len();
    let tail = text_of(&a, from, to);
    assert(a@.subrange(from as int, to as int) =~= s@.skip(s@.len() - p@.len()));
    same(tail.as_str(), p)
}

/// A text without as many `p` as stand at its end.
pub open spec fn stripped_end(s: Seq<char>, p: Seq<char>) -> Seq<char>
    decreases s.len(),
{
    if p.len() > 0 && ends(s, p) {
        stripped_end(s.take(s.len() - p.len()), p)
    } else {
        s
    }
}

/// Cuts `p` off the end of a text, as often as it stands there.
pub fn strip_end(s: &str, p: &str) -> (res: String)
    requires
        p@.len() > 0,
    ensures
        res@ == stripped_end(s@, p@),
{
    let mut cur = s.to_string();
    let n: usize = chars_of(p).len();
    while ends_with(cur.as_str(), p)
        invariant
            n == p@.len(),
            n > 0,
            stripped_end(cur@, p@) == stripped_end(s@, p@),
        decreases cur@.len(),
    {
        let cs = chars_of(cur.as_str());
        let to: usize = cs.len() - n;
        let next = text_of(&cs, 0, to);
        assert(cs@.subrange(0, to as int) =~= cur@.take(cur@.len() - p@.len()));
        cur = next;
    }
    cur
}

/// Whether a character is white space, as Unicode has it.
pub open spec fn is_space(c: char) -> bool {
    ||| ('\u{9}' <= c && c <= '\u{d}')
    ||| c == ' '
    ||| c == '\u{85}'
    ||| c == '\u{a0}'
    ||| c == '\u{1680}'
    ||| ('\u{2000}' <= c && c <= '\u{200a}')
    ||| c == '\u{2028}'
    ||| c == '\u{2029}'
    ||| c == '\u{202f}'
    ||| c == '\u{205f}'
    ||| c == '\u{3000}'
}

/// Whether a character is white space.
pub fn space(c: char) -> (res: bool)
    ensures
        res == is_space(c),
{
    ('\u{9}' <= c && c <= '\u{d}') || c == ' ' || c == '\u{85}' || c == '\u{a0}' || c == '\u{1680}'
        || ('\u{2000}' <= c && c <= '\u{200a}') || c == '\u{2028}' || c == '\u{2029}' || c
        == '\u{202f}' || c == '\u{205f}' || c == '\u{3000}'
}

/// How much white space a text starts with.
pub open spec fn lead(s: Seq<char>) -> nat
    decreases s.len(),
{
    if s.len() > 0 && is_space(s[0]) {
        1 + lead(s.drop_first())
    } else {
        0
    }
}

/// How much of a text there is up to the white space at its end.
pub open spec fn body_end(s: Seq<char>) -> nat
    decreases s.len(),
{
    if s.len() > 0 && is_space(s.last()) {
        body_end(s.drop_last())
    } else {
        s.len()
    }
}

/// A text without the white space around it.
pub open spec fn trimmed(s: Seq<char>) -> Seq<char> {
    let t = s.skip(lead(s) as int);
    t.take(body_end(t) as int)
}

/// Cuts the white space around a text off.
pub fn trim(s: &str) -> (res: String)
    ensures
        res@ == trimmed(s@),
{
    let cs = chars_of(s);
    let mut from: usize = 0;
    assert(cs@.skip(0) =~= cs@);
    while from < cs.len() && space(cs[from])
        invariant
            from <= cs@.len(),
            lead(cs@) == from + lead(cs@.skip(from as int)),
        decreases cs@.len() - from,
    {
        assert(cs@.skip(from as int).drop_first() =~= cs@.skip(from + 1));
        from += 1;
    }
    assert(lead(cs@.skip(from as int)) == 0);
    let ghost t = cs@.skip(from as int);
    let mut to: usize = cs.len();
    assert(t.take(to - from) =~= t);
    while to > from && space(cs[to - 1])
        invariant
            from <= to <= cs@.len(),
            t == cs@.skip(from as int),
            body_end(t.take(to - from)) == body_end(t),
        decreases to,
    {
        assert(t.take(to - from).drop_last() =~= t.take(to - from - 1));
        to -= 1;
    }
    assert(body_end(t.take(to - from)) == to - from);
    let res = text_of(&cs, from, to);
    assert(cs@.subrange(from as int, to as int) =~= t.take(body_end(t) as int));
    res
}

/// A path under a directory: a path that starts at the root stands for itself,
/// and a slash goes between the two where the directory does not end in one.
pub open spec fn path_joined(dir: Seq<char>, path: Seq<char>) -> Seq<char> {
    if path.len() > 0 && path[0] == '/' {
        path
    } else if dir.len() > 0 && dir.last() != '/' {
        dir + seq!['/'] + path
    } else {
        dir + path
    }
}

/// Joins a path to a directory.
pub fn join_path(dir: &str, path: &str) -> (res: String)
    ensures
        res@ == path_joined(dir@, path@),
{
    let front = chars_of(dir);
    let back = chars_of(path);
    if back.len() > 0 && back[0] == '/' {
        return path.to_string();
    }
    let mut s = dir.to_string();
    if front.len() > 0 && front[front.len() - 1] != '/' {
        s.push('/');
        assert(s@ =~= dir@ + seq!['/']);
    }
    s.append(path);
    s
}

/// A number that was rendered reads back: its decimal form is digits only, has
/// no zero in front, and spells the number.
pub proof fn law_decimal_reads_back(n: nat)
    ensures
        dec(n).len() > 0,
        forall|i: int| 0 <= i < dec(n).len() ==> '0' <= #[trigger] dec(n)[i] && dec(n)[i] <= '9',
        n > 0 ==> dec(n)[0] != '0',
        digits_value(dec(n)) == n,
    decreases n,
{
    if n < 10 {
        assert(dec(n).drop_last() =~= Seq::empty());
        assert(digits_value(Seq::<char>::empty()) == 0);
    } else {
        law_decimal_reads_back(n / 10);
        assert(dec(n).drop_last() =~= dec(n / 10));
        assert(dec(n)[0] == dec(n / 10)[0]);
        assert forall|i: int| 0 <= i < dec(n).len() implies '0' <= #[trigger] dec(n)[i] && dec(n)[i]
            <= '9' by {
            if i < dec(n / 10).len() {
                assert(dec(n)[i] == dec(n / 10)[i]);
            }
        }
    }
}

/// Different numbers show differently.
pub proof fn law_decimals_differ(a: nat, b: nat)
    requires
        a != b,
    ensures
        dec(a) != dec(b),
{
    law_decimal_reads_back(a);
    law_decimal_reads_back(b);
}

/// Nothing joins to nothing, one text to itself, and two lists to what each
/// joins to, with the separator between.
pub proof fn law_joined(a: Seq<Seq<char>>, b: Seq<Seq<char>>, one: Seq<char>, sep: Seq<char>)
    requires
        a.len() > 0,
        b.len() > 0,
    ensures
        joined(Seq::empty(), sep) == Seq::<char>::empty(),
        joined(seq![one], sep) == one,
        joined(a + b, sep) == joined(a, sep) + sep + joined(b, sep),
    decreases b.len(),
{
    if b.len() == 1 {
        assert((a + b).drop_last() =~= a);
    } else {
        law_joined(a, b.drop_last(), one, sep);
        assert((a + b).drop_last() =~= a + b.drop_last());
        assert(joined(a + b, sep) =~= joined(a, sep) + sep + joined(b, sep));
    }
}

/// A list of numbers shows in brackets: an empty one as nothing in them, one
/// number as its digits, and a list that goes on as its parts with the
/// separator between.
pub proof fn law_list_text(n: nat, a: Seq<nat>, b: Seq<nat>, sep: Seq<char>)
    requires
        a.len() > 0,
        b.len() > 0,
    ensures
        list_text(Seq::empty(), sep) == seq!['[', ']'],
        list_text(seq![n], sep) == seq!['['] + dec(n) + seq![']'],
        list_text(a + b, sep) == list_text(a, sep).drop_last() + sep + list_text(
            b,
            sep,
        ).drop_first(),
{
    reveal_strlit("[");
    reveal_strlit("]");
    assert("["@ =~= seq!['[']);
    assert("]"@ =~= seq![']']);
    assert(decs(Seq::empty()) =~= Seq::empty());
    assert(decs(seq![n]) =~= seq![dec(n)]);
    assert(decs(a + b) =~= decs(a) + decs(b));
    law_joined(decs(a), decs(b), dec(n), sep);
    assert(list_text(Seq::empty(), sep) =~= seq!['[', ']']);
    let whole = list_text(a + b, sep);
    let x = list_text(a, sep).drop_last();
    let y = list_text(b, sep).drop_first();
    assert(x =~= "["@ + joined(decs(a), sep));
    assert(y =~= joined(decs(b), sep) + "]"@);
    assert(whole =~= x + sep + y);
}

/// Trimming cuts white space off both ends and nothing else: what is left is a
/// piece of the text that neither begins nor ends with it.
pub proof fn law_trimmed(s: Seq<char>)
    ensures
        trimmed(s).len() > 0 ==> !is_space(trimmed(s)[0]) && !is_space(trimmed(s).last()),
        exists|a: int, b: int|
            {
                &&& 0 <= a <= b <= s.len()
                &&& trimmed(s) == #[trigger] s.subrange(a, b)
                &&& forall|i: int| (0 <= i < a || b <= i < s.len()) ==> is_space(#[trigger] s[i])
            },
{
    lemma_lead(s);
    let a = lead(s) as int;
    let t = s.skip(a);
    lemma_body_end(t);
    let b = a + body_end(t);
    assert(trimmed(s) =~= s.subrange(a, b));
    assert forall|i: int| (0 <= i < a || b <= i < s.len()) implies is_space(#[trigger] s[i]) by {
        if i >= b {
            assert(s[i] == t[i - a]);
        }
    }
    if trimmed(s).len() > 0 {
        assert(trimmed(s)[0] == s[a]);
        assert(trimmed(s).last() == t[body_end(t) - 1]);
    }
}

proof fn lemma_lead(s: Seq<char>)
    ensures
        lead(s) <= s.len(),
        forall|i: int| 0 <= i < lead(s) ==> is_space(#[trigger] s[i]),
        lead(s) < s.len() ==> !is_space(s[lead(s) as int]),
    decreases s.len(),
{
    if s.len() > 0 && is_space(s[0]) {
        let rest = s.drop_first();
        lemma_lead(rest);
        assert forall|i: int| 0 <= i < lead(s) implies is_space(#[trigger] s[i]) by {
            if i > 0 {
                assert(s[i] == rest[i - 1]);
            }
        }
        if lead(s) < s.len() {
            assert(s[lead(s) as int] == rest[lead(rest) as int]);
        }
    }
}

proof fn lemma_body_end(s: Seq<char>)
    ensures
        body_end(s) <= s.len(),
        forall|i: int| body_end(s) <= i < s.len() ==> is_space(#[trigger] s[i]),
        body_end(s) > 0 ==> !is_space(s[body_end(s) - 1]),
    decreases s.len(),
{
    if s.len() > 0 && is_space(s.last()) {
        let front = s.drop_last();
        lemma_body_end(front);
        assert forall|i: int| body_end(s) <= i < s.len() implies is_space(#[trigger] s[i]) by {
            if i < front.len() {
                assert(s[i] == front[i]);
            }
        }
    }
}

/// Cutting a character off the end leaves a text that does not end with it,
/// and takes nothing else.
pub proof fn law_trimmed_end(s: Seq<char>, c: char)
    ensures
        trimmed_end(s, c).len() <= s.len(),
        trimmed_end(s, c) == s.take(trimmed_end(s, c).len() as int),
        trimmed_end(s, c).len() > 0 ==> trimmed_end(s, c).last() != c,
        forall|i: int| trimmed_end(s, c).len() <= i < s.len() ==> #[trigger] s[i] == c,
    decreases s.len(),
{
    if s.len() > 0 && s.last() == c {
        let front = s.drop_last();
        law_trimmed_end(front, c);
        let n = trimmed_end(s, c).len() as int;
        assert(front.take(n) =~= s.take(n));
        assert forall|i: int| n <= i < s.len() implies #[trigger] s[i] == c by {
            if i < front.len() {
                assert(s[i] == front[i]);
            }
        }
    } else {
        assert(s.take(s.len() as int) =~= s);
    }
}

/// A number that was rendered is read back as the same number, where it fits.
pub proof fn law_number_reads_back(n: nat, max: nat)
    ensures
        n <= max ==> number(dec(n), max) == Some(n),
        n > max ==> number(dec(n), max) is None,
{
    law_decimal_reads_back(n);
    assert(dec(n)[0] != '+');
    assert forall|i: int| 0 <= i < dec(n).len() implies is_digit(#[trigger] dec(n)[i]) by {
        assert('0' <= dec(n)[i] && dec(n)[i] <= '9');
    }
}

/// A path under a directory ends with the path; one from the root stands for
/// itself.
pub proof fn law_path_joined(dir: Seq<char>, path: Seq<char>)
    ensures
        ends(path_joined(dir, path), path),
        path.len() > 0 && path[0] == '/' ==> path_joined(dir, path) == path,
        !(path.len() > 0 && path[0] == '/') ==> begins(path_joined(dir, path), dir),
        !(path.len() > 0 && path[0] == '/') && dir.len() > 0 && dir.last() != '/' ==> path_joined(
            dir,
            path,
        ) == dir + seq!['/'] + path,
        !(path.len() > 0 && path[0] == '/') && dir.len() > 0 && dir.last() == '/' ==> path_joined(
            dir,
            path,
        ) == dir + path,
{
    let s = path_joined(dir, path);
    assert(s.skip(s.len() - path.len()) =~= path);
    if !(path.len() > 0 && path[0] == '/') {
        assert(s.take(dir.len() as int) =~= dir);
    }
}

/// Stripping takes a word off the end as often as it stands there, and nothing
/// else.
pub proof fn law_stripped_end(s: Seq<char>, p: Seq<char>)
    requires
        p.len() > 0,
    ensures
        !ends(stripped_end(s, p), p),
        stripped_end(s + p, p) == stripped_end(s, p),
        !ends(s, p) ==> stripped_end(s, p) == s,
    decreases s.len(),
{
    let t = s + p;
    assert(t.skip(t.len() - p.len()) =~= p);
    assert(t.take(t.len() - p.len()) =~= s);
    if ends(s, p) {
        law_stripped_end(s.take(s.len() - p.len()), p);
    }
}

/// Texts are known by their characters, each in its place.
pub proof fn law_known_by_characters(o: Option<String>, v: Seq<String>, i: int)
    requires
        0 <= i < v.len(),
    ensures
        o matches Some(s) ==> opt_chars(o) == Some(s@),
        o is None ==> opt_chars(o) is None,
        all_chars(v).len() == v.len(),
        all_chars(v)[i] == v[i]@,
{
}

} // verus!
