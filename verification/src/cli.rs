//! What the command line asks for.
use vstd::prelude::*;

use crate::text;
use crate::text::{
    chars_of, clone_texts, join, parse_number, same, starts_with, strip_end, text_of, trim,
    trim_end_char,
};

verus! {

/// Where a word stands first.
pub open spec fn place(args: Seq<Seq<char>>, word: Seq<char>) -> Option<int>
    decreases args.len(),
{
    if args.len() == 0 {
        None
    } else if args[0] == word {
        Some(0)
    } else {
        match place(args.drop_first(), word) {
            Some(i) => Some(i + 1),
            None => None,
        }
    }
}

/// Where a word with a certain beginning stands first.
pub open spec fn place_of_start(args: Seq<Seq<char>>, start: Seq<char>) -> Option<int>
    decreases args.len(),
{
    if args.len() == 0 {
        None
    } else if text::begins(args[0], start) {
        Some(0)
    } else {
        match place_of_start(args.drop_first(), start) {
            Some(i) => Some(i + 1),
            None => None,
        }
    }
}

/// What stands behind the first equals sign.
pub open spec fn after_equals(s: Seq<char>) -> Option<Seq<char>>
    decreases s.len(),
{
    if s.len() == 0 {
        None
    } else if s[0] == '=' {
        Some(s.drop_first())
    } else {
        after_equals(s.drop_first())
    }
}

/// Takes `flag=value` out.
pub open spec fn taken_joined(args: Seq<Seq<char>>, flag: Seq<char>) -> (
    Option<Seq<char>>,
    Seq<Seq<char>>,
) {
    match place_of_start(args, flag + "="@) {
        Some(i) => (after_equals(args[i]), args.remove(i)),
        None => (None, args),
    }
}

/// Takes a flag and its value out: `flag value`, or else `flag=value`. A flag
/// at the very end has no value, and goes.
pub open spec fn taken(args: Seq<Seq<char>>, flag: Seq<char>) -> (
    Option<Seq<char>>,
    Seq<Seq<char>>,
) {
    match place(args, flag) {
        Some(i) => {
            let rest = args.remove(i);
            if i < rest.len() {
                (Some(rest[i]), rest.remove(i))
            } else {
                taken_joined(rest, flag)
            }
        },
        None => taken_joined(args, flag),
    }
}

proof fn lemma_place(args: Seq<Seq<char>>, word: Seq<char>)
    ensures
        match place(args, word) {
            Some(i) => 0 <= i < args.len() && args[i] == word && forall|j: int|
                0 <= j < i ==> args[j] != word,
            None => forall|j: int| 0 <= j < args.len() ==> args[j] != word,
        },
    decreases args.len(),
{
    if args.len() > 0 && args[0] != word {
        let rest = args.drop_first();
        lemma_place(rest, word);
        assert(forall|j: int| 0 < j < args.len() ==> args[j] == rest[j - 1]);
    }
}

proof fn lemma_place_of_start(args: Seq<Seq<char>>, start: Seq<char>)
    ensures
        match place_of_start(args, start) {
            Some(i) => 0 <= i < args.len() && text::begins(args[i], start) && forall|j: int|
                0 <= j < i ==> !text::begins(#[trigger] args[j], start),
            None => forall|j: int| 0 <= j < args.len() ==> !text::begins(#[trigger] args[j], start),
        },
    decreases args.len(),
{
    if args.len() > 0 && !text::begins(args[0], start) {
        let rest = args.drop_first();
        lemma_place_of_start(rest, start);
        assert(forall|j: int| 0 < j < args.len() ==> #[trigger] args[j] == rest[j - 1]);
    }
}

fn find(args: &Vec<String>, word: &str) -> (res: Option<usize>)
    ensures
        match res {
            Some(i) => place(text::all_chars(args@), word@) == Some(i as int) && i < args@.len(),
            None => place(text::all_chars(args@), word@) is None,
        },
{
    let ghost all = text::all_chars(args@);
    proof {
        lemma_place(all, word@);
    }
    let mut i: usize = 0;
    while i < args.len()
        invariant
            i <= args@.len(),
            all == text::all_chars(args@),
            forall|j: int| 0 <= j < i ==> #[trigger] all[j] != word@,
        decreases args@.len() - i,
    {
        assert(all[i as int] == args@[i as int]@);
        if same(args[i].as_str(), word) {
            proof {
                lemma_place(all, word@);
            }
            return Some(i);
        }
        i += 1;
    }
    proof {
        lemma_place(all, word@);
    }
    None
}

fn find_start(args: &Vec<String>, start: &str) -> (res: Option<usize>)
    ensures
        match res {
            Some(i) => place_of_start(text::all_chars(args@), start@) == Some(i as int) && i
                < args@.len(),
            None => place_of_start(text::all_chars(args@), start@) is None,
        },
{
    let ghost all = text::all_chars(args@);
    let mut i: usize = 0;
    while i < args.len()
        invariant
            i <= args@.len(),
            all == text::all_chars(args@),
            forall|j: int| 0 <= j < i ==> !text::begins(#[trigger] all[j], start@),
        decreases args@.len() - i,
    {
        assert(all[i as int] == args@[i as int]@);
        if starts_with(args[i].as_str(), start) {
            proof {
                lemma_place_of_start(all, start@);
            }
            return Some(i);
        }
        i += 1;
    }
    proof {
        lemma_place_of_start(all, start@);
    }
    None
}

fn behind_equals(s: &str) -> (res: Option<String>)
    ensures
        text::opt_chars(res) == after_equals(s@),
{
    let cs = chars_of(s);
    let mut i: usize = 0;
    assert(cs@.skip(0) =~= cs@);
    while i < cs.len()
        invariant
            i <= cs@.len(),
            cs@ == s@,
            after_equals(s@) == after_equals(cs@.skip(i as int)),
        decreases cs@.len() - i,
    {
        assert(cs@.skip(i as int).drop_first() =~= cs@.skip(i + 1));
        if cs[i] == '=' {
            let n: usize = cs.len();
            let res = text_of(&cs, i + 1, n);
            assert(cs@.subrange(i + 1, n as int) =~= cs@.skip(i + 1));
            return Some(res);
        }
        i += 1;
    }
    None
}

/// Takes a flag and its value out of the arguments.
pub fn take_flag_value(args: &mut Vec<String>, flag: &str) -> (res: Option<String>)
    ensures
        (text::opt_chars(res), text::all_chars(final(args)@)) == taken(
            text::all_chars(old(args)@),
            flag@,
        ),
{
    let ghost all = text::all_chars(args@);
    if let Some(pos) = find(args, flag) {
        let _ = args.remove(pos);
        assert(text::all_chars(args@) =~= all.remove(pos as int));
        if pos < args.len() {
            let ghost rest = text::all_chars(args@);
            let v = args.remove(pos);
            assert(text::all_chars(args@) =~= rest.remove(pos as int));
            return Some(v);
        }
    }
    let ghost left = text::all_chars(args@);
    let mut start = flag.to_string();
    start.append("=");
    if let Some(pos) = find_start(args, start.as_str()) {
        let raw = args.remove(pos);
        assert(text::all_chars(args@) =~= left.remove(pos as int));
        return behind_equals(raw.as_str());
    }
    None
}

/// Which words are none of those.
pub open spec fn but(words: Seq<Seq<char>>) -> spec_fn(Seq<char>) -> bool {
    |a: Seq<char>| !words.contains(a)
}

/// The arguments without certain words.
fn without(args: &Vec<String>, words: &Vec<String>) -> (res: Vec<String>)
    ensures
        text::all_chars(res@) == text::all_chars(args@).filter(but(text::all_chars(words@))),
{
    let ghost all = text::all_chars(args@);
    let ghost f = but(text::all_chars(words@));
    let mut out: Vec<String> = Vec::new();
    let mut i: usize = 0;
    proof {
        assert(all.take(0) =~= Seq::empty());
        reveal(Seq::filter);
        assert(text::all_chars(out@) =~= all.take(0).filter(f));
    }
    while i < args.len()
        invariant
            i <= args@.len(),
            all == text::all_chars(args@),
            f == but(text::all_chars(words@)),
            text::all_chars(out@) == all.take(i as int).filter(f),
        decreases args@.len() - i,
    {
        proof {
            assert(all.take(i + 1) =~= all.take(i as int).push(all[i as int]));
            all.take(i as int).lemma_filter_push(all[i as int], f);
            lemma_place(text::all_chars(words@), all[i as int]);
        }
        let a = args[i].clone();
        let gone = match find(words, a.as_str()) {
            Some(j) => {
                assert(text::all_chars(words@)[j as int] == a@);
                true
            },
            None => false,
        };
        if !gone {
            let ghost before = out@;
            out.push(a);
            assert(text::all_chars(out@) =~= text::all_chars(before).push(a@));
        }
        i += 1;
    }
    assert(all.take(i as int) =~= all);
    out
}

/// What runs the model.
#[derive(Debug)]
pub enum Backend {
    /// The kernel that is built in only on request.
    FlashInfer,
    /// The kernel that runs anywhere, on made-up numbers.
    KernelSmoke,
    /// An engine that speaks the native protocol.
    Engine { url: String },
    /// A server that speaks chat completions.
    Http { url: String },
    /// Nothing: one tool call, then an end.
    StubWithTool,
    /// Nothing: an end at once.
    StubStop,
}

pub enum BackendView {
    FlashInfer,
    KernelSmoke,
    Engine { url: Seq<char> },
    Http { url: Seq<char> },
    StubWithTool,
    StubStop,
}

impl View for Backend {
    type V = BackendView;

    open spec fn view(&self) -> BackendView {
        match *self {
            Backend::FlashInfer => BackendView::FlashInfer,
            Backend::KernelSmoke => BackendView::KernelSmoke,
            Backend::Engine { url } => BackendView::Engine { url: url@ },
            Backend::Http { url } => BackendView::Http { url: url@ },
            Backend::StubWithTool => BackendView::StubWithTool,
            Backend::StubStop => BackendView::StubStop,
        }
    }
}

/// A run of one trajectory.
#[derive(Debug)]
pub struct RunOptions {
    pub prompt: String,
    pub model: String,
    pub max_tokens: u32,
    pub backend: Backend,
}

pub struct RunOptionsView {
    pub prompt: Seq<char>,
    pub model: Seq<char>,
    pub max_tokens: nat,
    pub backend: BackendView,
}

impl View for RunOptions {
    type V = RunOptionsView;

    open spec fn view(&self) -> RunOptionsView {
        RunOptionsView {
            prompt: self.prompt@,
            model: self.model@,
            max_tokens: self.max_tokens as nat,
            backend: self.backend@,
        }
    }
}

/// The words that are flags on their own.
pub open spec fn run_words() -> Seq<Seq<char>> {
    seq!["--tools"@, "--kernel-smoke"@, "--flashinfer"@]
}

/// The number that a value spells, or another.
pub open spec fn number_or(v: Option<Seq<char>>, other: nat) -> nat {
    match v {
        Some(s) => match text::number(s, u32::MAX as nat) {
            Some(n) => n,
            None => other,
        },
        None => other,
    }
}

pub open spec fn text_or(v: Option<Seq<char>>, other: Seq<char>) -> Seq<char> {
    match v {
        Some(s) => s,
        None => other,
    }
}

/// What the arguments of a run ask for. Kernels come before engines, engines
/// before servers, and without any of them the stub runs.
pub open spec fn run_asked(args: Seq<Seq<char>>) -> RunOptionsView {
    let (engine, a1) = taken(args, "--engine-url"@);
    let (http, a2) = taken(a1, "--backend-url"@);
    let (model, a3) = taken(a2, "--model"@);
    let (max, a4) = taken(a3, "--max-tokens"@);
    let rest = a4.filter(but(run_words()));
    RunOptionsView {
        prompt: if rest.len() > 0 {
            rest[0]
        } else {
            "Say hello and stop."@
        },
        model: text_or(model, "/home/bodesi/models/ds-v4-flash"@),
        max_tokens: number_or(max, 64),
        backend: if args.contains("--flashinfer"@) {
            BackendView::FlashInfer
        } else if args.contains("--kernel-smoke"@) {
            BackendView::KernelSmoke
        } else if engine is Some {
            BackendView::Engine { url: engine->Some_0 }
        } else if http is Some {
            BackendView::Http { url: http->Some_0 }
        } else if args.contains("--tools"@) {
            BackendView::StubWithTool
        } else {
            BackendView::StubStop
        },
    }
}

fn has_word(args: &Vec<String>, word: &str) -> (res: bool)
    ensures
        res == text::all_chars(args@).contains(word@),
{
    proof {
        lemma_place(text::all_chars(args@), word@);
    }
    match find(args, word) {
        Some(i) => {
            assert(text::all_chars(args@)[i as int] == word@);
            true
        },
        None => false,
    }
}

fn number_in(v: &Option<String>, other: u32) -> (res: u32)
    ensures
        res == number_or(text::opt_chars(*v), other as nat),
{
    match v {
        Some(s) => match parse_number(s.as_str(), u32::MAX as u64) {
            Some(n) => n as u32,
            None => other,
        },
        None => other,
    }
}

fn words3(a: &str, b: &str, c: &str) -> (res: Vec<String>)
    ensures
        text::all_chars(res@) == seq![a@, b@, c@],
{
    let mut res: Vec<String> = Vec::new();
    res.push(a.to_string());
    res.push(b.to_string());
    res.push(c.to_string());
    assert(text::all_chars(res@) =~= seq![a@, b@, c@]);
    res
}

/// What the arguments of a run ask for.
pub fn parse_run(args: Vec<String>) -> (res: RunOptions)
    ensures
        res@ == run_asked(text::all_chars(args@)),
{
    let use_tools = has_word(&args, "--tools");
    let kernel = has_word(&args, "--kernel-smoke");
    let flashinfer = has_word(&args, "--flashinfer");
    let mut left = clone_texts(&args);
    let engine_url = take_flag_value(&mut left, "--engine-url");
    let backend_url = take_flag_value(&mut left, "--backend-url");
    let model = match take_flag_value(&mut left, "--model") {
        Some(m) => m,
        None => "/home/bodesi/models/ds-v4-flash".to_string(),
    };
    let max = take_flag_value(&mut left, "--max-tokens");
    let max_tokens: u32 = number_in(&max, 64);
    let rest = without(&left, &words3("--tools", "--kernel-smoke", "--flashinfer"));
    let ghost shown = text::all_chars(rest@);
    let prompt = if rest.len() > 0 {
        assert(shown[0] == rest@[0]@);
        rest[0].clone()
    } else {
        "Say hello and stop.".to_string()
    };
    let backend = if flashinfer {
        Backend::FlashInfer
    } else if kernel {
        Backend::KernelSmoke
    } else {
        match engine_url {
            Some(url) => Backend::Engine { url },
            None => match backend_url {
                Some(url) => Backend::Http { url },
                None => if use_tools {
                    Backend::StubWithTool
                } else {
                    Backend::StubStop
                },
            },
        }
    };
    RunOptions { prompt, model, max_tokens, backend }
}

/// A server: where it forwards to, if it does, and what else was said.
#[derive(Debug)]
pub struct ServeOptions {
    /// The engine behind the bridge.
    pub upstream: Option<String>,
    /// The address to listen on, as it was written.
    pub address: Option<String>,
}

/// What the arguments of a server ask for.
pub fn parse_serve(args: Vec<String>) -> (res: ServeOptions)
    ensures
        ({
            let (up, rest) = taken(text::all_chars(args@), "--upstream"@);
            &&& text::opt_chars(res.upstream) == match up {
                Some(u) => Some(text::trimmed_end(u, '/')),
                None => None,
            }
            &&& text::opt_chars(res.address) == if rest.len() > 0 {
                Some(rest[0])
            } else {
                None
            }
        }),
{
    let mut left = args;
    let upstream = match take_flag_value(&mut left, "--upstream") {
        Some(u) => Some(trim_end_char(u.as_str(), '/')),
        None => None,
    };
    let ghost rest = text::all_chars(left@);
    let address = if left.len() > 0 {
        assert(rest[0] == left@[0]@);
        Some(left[0].clone())
    } else {
        None
    };
    ServeOptions { upstream, address }
}

/// A coding agent's run.
#[derive(Debug)]
pub struct AgentOptions {
    pub backend_url: String,
    /// The server behind the bridge.
    pub upstream: String,
    pub model: String,
    pub workdir: Option<String>,
    pub max_turns: u32,
    pub yolo: bool,
    /// No bridge between the agent and the server.
    pub direct: bool,
    pub prompt: String,
}

pub open spec fn agent_words() -> Seq<Seq<char>> {
    seq!["--no-yolo"@, "--direct"@]
}

pub open spec fn usage() -> Seq<char> {
    "usage: traject agent [--backend-url URL] [--model ID] [--workdir DIR] [--direct] <prompt>"@
}

/// What the arguments of an agent ask for; how it is used where they name no
/// task.
pub fn parse_agent(args: Vec<String>) -> (res: Result<AgentOptions, String>)
    ensures
        ({
            let (url, a1) = taken(text::all_chars(args@), "--backend-url"@);
            let (model, a2) = taken(a1, "--model"@);
            let (dir, a3) = taken(a2, "--workdir"@);
            let (turns, a4) = taken(a3, "--max-turns"@);
            let prompt = text::joined(a4.filter(but(agent_words())), " "@);
            match res {
                Ok(o) => {
                    &&& text::trimmed(prompt).len() > 0
                    &&& o.prompt@ == prompt
                    &&& o.backend_url@ == text_or(url, "http://127.0.0.1:8000/v1"@)
                    &&& o.upstream@ == text::stripped_end(
                        text::trimmed_end(o.backend_url@, '/'),
                        "/v1"@,
                    )
                    &&& o.model@ == text_or(model, "/home/bodesi/models/ds-v4-flash"@)
                    &&& text::opt_chars(o.workdir) == dir
                    &&& o.max_turns == number_or(turns, 8)
                    &&& o.yolo == !a4.contains("--no-yolo"@)
                    &&& o.direct == a4.contains("--direct"@)
                },
                Err(m) => text::trimmed(prompt).len() == 0 && m@ == usage(),
            }
        }),
{
    let mut left = args;
    let backend_url = match take_flag_value(&mut left, "--backend-url") {
        Some(u) => u,
        None => "http://127.0.0.1:8000/v1".to_string(),
    };
    let model = match take_flag_value(&mut left, "--model") {
        Some(m) => m,
        None => "/home/bodesi/models/ds-v4-flash".to_string(),
    };
    let workdir = take_flag_value(&mut left, "--workdir");
    let turns = take_flag_value(&mut left, "--max-turns");
    let max_turns: u32 = number_in(&turns, 8);
    let no_yolo = has_word(&left, "--no-yolo");
    let direct = has_word(&left, "--direct");
    let mut words: Vec<String> = Vec::new();
    words.push("--no-yolo".to_string());
    words.push("--direct".to_string());
    assert(text::all_chars(words@) =~= agent_words());
    let rest = without(&left, &words);
    let prompt = join(&rest, " ");
    if chars_of(trim(prompt.as_str()).as_str()).len() == 0 {
        return Err(
            "usage: traject agent [--backend-url URL] [--model ID] [--workdir DIR] [--direct] <prompt>".to_string(),
        );
    }
    proof {
        reveal_strlit("/v1");
    }
    let upstream = strip_end(trim_end_char(backend_url.as_str(), '/').as_str(), "/v1");
    Ok(
        AgentOptions {
            backend_url,
            upstream,
            model,
            workdir,
            max_turns,
            yolo: !no_yolo,
            direct,
            prompt,
        },
    )
}

/// Taking a flag out leaves the other arguments, in their order, and takes no
/// more than two.
pub proof fn law_taking_keeps_the_rest(args: Seq<Seq<char>>, flag: Seq<char>)
    ensures
        taken(args, flag).1.len() <= args.len(),
        taken(args, flag).1.len() + 2 >= args.len(),
        place(args, flag) is None && place_of_start(args, flag + "="@) is None ==> taken(args, flag)
            == (None::<Seq<char>>, args),
{
    lemma_place(args, flag);
    lemma_place_of_start(args, flag + "="@);
    if let Some(i) = place(args, flag) {
        lemma_place_of_start(args.remove(i), flag + "="@);
    }
}

/// A flag and the word behind it are taken out together: the word is the flag's
/// value, and all else stays in its order.
pub proof fn law_flag_value(
    front: Seq<Seq<char>>,
    flag: Seq<char>,
    value: Seq<char>,
    back: Seq<Seq<char>>,
)
    requires
        !front.contains(flag),
    ensures
        taken(front + seq![flag, value] + back, flag) == (Some(value), front + back),
{
    let args = front + seq![flag, value] + back;
    let n = front.len() as int;
    lemma_place(args, flag);
    assert(args[n] == flag && args[n + 1] == value);
    assert forall|j: int| 0 <= j < n implies args[j] != flag by {
        assert(args[j] == front[j]);
        assert(front.contains(front[j]));
    }
    assert(place(args, flag) == Some(n));
    let rest = args.remove(n);
    assert(rest[n] == value);
    assert(rest.remove(n) =~= front + back);
}

proof fn lemma_after_equals(flag: Seq<char>, value: Seq<char>)
    requires
        !flag.contains('='),
    ensures
        after_equals(flag + seq!['='] + value) == Some(value),
    decreases flag.len(),
{
    let s = flag + seq!['='] + value;
    if flag.len() == 0 {
        assert(s.drop_first() =~= value);
    } else {
        assert(flag.contains(flag[0]));
        assert(s[0] == flag[0]);
        let rest = flag.drop_first();
        assert(!rest.contains('=')) by {
            if rest.contains('=') {
                let i = choose|i: int| 0 <= i < rest.len() && rest[i] == '=';
                assert(flag[i + 1] == '=');
            }
        }
        assert(s.drop_first() =~= rest + seq!['='] + value);
        lemma_after_equals(rest, value);
    }
}

/// A flag that is joined to its value by an equals sign is taken out: what
/// stands behind the sign is its value, and all else stays in its order.
pub proof fn law_flag_with_equals(
    front: Seq<Seq<char>>,
    flag: Seq<char>,
    value: Seq<char>,
    back: Seq<Seq<char>>,
)
    requires
        !flag.contains('='),
        !front.contains(flag),
        !back.contains(flag),
        forall|j: int| 0 <= j < front.len() ==> !text::begins(#[trigger] front[j], flag + "="@),
    ensures
        taken(front + seq![flag + seq!['='] + value] + back, flag) == (
            Some(value),
            front + back,
        ),
{
    reveal_strlit("=");
    assert("="@ =~= seq!['=']);
    let word = flag + seq!['='] + value;
    let args = front + seq![word] + back;
    let n = front.len() as int;
    lemma_place(args, flag);
    assert forall|j: int| 0 <= j < args.len() implies args[j] != flag by {
        if j < n {
            assert(args[j] == front[j]);
            assert(front.contains(front[j]));
        } else if j > n {
            assert(args[j] == back[j - n - 1]);
            assert(back.contains(back[j - n - 1]));
        } else {
            assert(args[j].len() > flag.len());
        }
    }
    lemma_place_of_start(args, flag + "="@);
    assert(args[n] == word);
    assert(word.take((flag + "="@).len() as int) =~= flag + "="@);
    assert forall|j: int| 0 <= j < n implies !text::begins(#[trigger] args[j], flag + "="@) by {
        assert(args[j] == front[j]);
    }
    assert(place_of_start(args, flag + "="@) == Some(n));
    lemma_after_equals(flag, value);
    assert(args.remove(n) =~= front + back);
}

/// What runs the model: a kernel where one is asked for, else the engine, else
/// the server, by the address that was given, and else the stub, with a tool
/// where that is asked for.
pub proof fn law_run_backend(args: Seq<Seq<char>>)
    ensures
        ({
            let b = run_asked(args).backend;
            let engine = taken(args, "--engine-url"@);
            let http = taken(engine.1, "--backend-url"@);
            let kernel = args.contains("--flashinfer"@) || args.contains("--kernel-smoke"@);
            &&& args.contains("--flashinfer"@) ==> b is FlashInfer
            &&& args.contains("--kernel-smoke"@) && !args.contains("--flashinfer"@) ==> b
                is KernelSmoke
            &&& !kernel && engine.0 is Some ==> b == (BackendView::Engine {
                url: engine.0.unwrap(),
            })
            &&& !kernel && engine.0 is None && http.0 is Some ==> b == (BackendView::Http {
                url: http.0.unwrap(),
            })
            &&& !kernel && engine.0 is None && http.0 is None && args.contains("--tools"@) ==> b
                is StubWithTool
            &&& !kernel && engine.0 is None && http.0 is None && !args.contains("--tools"@) ==> b
                is StubStop
        }),
{
}

/// The prompt is the first word that is no flag and no flag's value, the model
/// and the number of tokens are those that were given; and where nothing is
/// given, there are a prompt, a model and sixty-four tokens.
pub proof fn law_run_options(args: Seq<Seq<char>>, n: nat)
    ensures
        ({
            let r = run_asked(args);
            let engine = taken(args, "--engine-url"@);
            let http = taken(engine.1, "--backend-url"@);
            let model = taken(http.1, "--model"@);
            let max = taken(model.1, "--max-tokens"@);
            let rest = max.1.filter(
                |a: Seq<char>|
                    a != "--tools"@ && a != "--kernel-smoke"@ && a != "--flashinfer"@,
            );
            &&& model.0 matches Some(m) ==> r.model == m
            &&& max.0 == Some(text::dec(n)) && n <= u32::MAX ==> r.max_tokens == n
            &&& max.0 is None ==> r.max_tokens == 64
            &&& rest.len() > 0 ==> r.prompt == rest[0]
            &&& rest.len() == 0 ==> r.prompt == "Say hello and stop."@
        }),
{
    text::law_number_reads_back(n, u32::MAX as nat);
    let f = |a: Seq<char>| a != "--tools"@ && a != "--kernel-smoke"@ && a != "--flashinfer"@;
    assert forall|a: Seq<char>| #[trigger] but(run_words())(a) == f(a) by {
        let w = run_words();
        assert(w[0] == "--tools"@ && w[1] == "--kernel-smoke"@ && w[2] == "--flashinfer"@);
        if w.contains(a) {
            let i = choose|i: int| 0 <= i < w.len() && w[i] == a;
            assert(i == 0 || i == 1 || i == 2);
        }
    }
    assert(but(run_words()) =~= f);
}

/// A number that is spelled out counts; what spells none, or is not there, leaves
/// the usual one. A text counts as it stands.
pub proof fn law_values_or_usual(n: nat, s: Seq<char>, other: nat, usual: Seq<char>)
    ensures
        n <= u32::MAX ==> number_or(Some(text::dec(n)), other) == n,
        text::number(s, u32::MAX as nat) is None ==> number_or(Some(s), other) == other,
        number_or(None, other) == other,
        text_or(Some(s), usual) == s,
        text_or(None, usual) == usual,
        agent_words() == seq!["--no-yolo"@, "--direct"@],
        run_words() == seq!["--tools"@, "--kernel-smoke"@, "--flashinfer"@],
{
    text::law_number_reads_back(n, u32::MAX as nat);
}

} // verus!
