//! Rolling tool-latency histogram for pin TTL estimation.
use vstd::prelude::*;

verus! {

/// The window after one more sample: the oldest one leaves where the window
/// already holds `cap` of them.
pub open spec fn slid(window: Seq<u64>, cap: nat, ms: u64) -> Seq<u64> {
    if window.len() < cap {
        window.push(ms)
    } else {
        window.drop_first().push(ms)
    }
}

/// The samples in ascending order.
pub open spec fn ascending(samples: Seq<u64>) -> Seq<u64> {
    samples.sort_by(|a: u64, b: u64| a <= b)
}

/// The sample that stands at `pct` percent of the way (100 at most) through
/// the ascending samples, rounded down.
pub open spec fn at_percent(samples: Seq<u64>, pct: u8) -> Option<u64> {
    if samples.len() == 0 {
        None
    } else {
        let p: int = if pct > 100 {
            100
        } else {
            pct as int
        };
        Some(ascending(samples)[p * (samples.len() - 1) / 100])
    }
}

/// Sorts the samples.
fn sorted(samples: &Vec<u64>) -> (res: Vec<u64>)
    ensures
        res@ == ascending(samples@),
        res@.len() == samples@.len(),
{
    let ghost leq = |a: u64, b: u64| a <= b;
    let mut out: Vec<u64> = Vec::new();
    let mut i: usize = 0;
    proof {
        assert(samples@.take(0) =~= Seq::<u64>::empty());
    }
    while i < samples.len()
        invariant
            i <= samples@.len(),
            leq == (|a: u64, b: u64| a <= b),
            out@.len() == i,
            vstd::relations::sorted_by(out@, leq),
            out@.to_multiset() == samples@.take(i as int).to_multiset(),
        decreases samples@.len() - i,
    {
        let x: u64 = samples[i];
        let mut pos: usize = out.len();
        while pos > 0 && x < out[pos - 1]
            invariant
                pos <= out@.len(),
                leq == (|a: u64, b: u64| a <= b),
                vstd::relations::sorted_by(out@, leq),
                forall|j: int| pos <= j < out@.len() ==> x < #[trigger] out@[j],
            decreases pos,
        {
            pos -= 1;
        }
        let ghost before = out@;
        assert forall|j: int| 0 <= j < pos implies #[trigger] before[j] <= x by {
            if j < pos - 1 {
                assert(leq(before[j], before[pos - 1]));
            }
        }
        out.insert(pos, x);
        proof {
            broadcast use vstd::seq_lib::group_to_multiset_ensures;

            assert(samples@.take(i + 1) =~= samples@.take(i as int).push(x));
            assert forall|a: int, b: int| 0 <= a < b < out@.len() implies #[trigger] leq(
                out@[a],
                out@[b],
            ) by {
                if b < pos {
                    assert(leq(before[a], before[b]));
                } else if a > pos {
                    assert(leq(before[a - 1], before[b - 1]));
                }
            }
        }
        i += 1;
    }
    proof {
        broadcast use vstd::seq_lib::group_to_multiset_ensures;

        assert(samples@.take(i as int) =~= samples@);
        samples@.lemma_sort_by_ensures(leq);
        vstd::seq_lib::lemma_sorted_unique(out@, ascending(samples@), leq);
    }
    out
}

/// Keeps a fixed-size ring of recent samples (ms) and answers p95.
#[derive(Debug, Clone)]
pub struct LatencyHistogram {
    samples: Vec<u64>,
    cap: usize,
    next: usize,
    count: usize,
}

impl View for LatencyHistogram {
    type V = Seq<u64>;

    /// The recent samples, the oldest first.
    closed spec fn view(&self) -> Seq<u64> {
        if self.count < self.cap {
            self.samples@.take(self.count as int)
        } else {
            self.samples@.skip(self.next as int) + self.samples@.take(self.next as int)
        }
    }
}

impl LatencyHistogram {
    /// The ring is in order.
    pub closed spec fn wf(self) -> bool {
        &&& 8 <= self.cap <= isize::MAX
        &&& self.samples@.len() == self.cap
        &&& self.next < self.cap
        &&& self.count <= self.cap
        &&& self.count < self.cap ==> self.next == self.count
    }

    /// How many samples the ring holds at most.
    pub closed spec fn capacity(self) -> nat {
        self.cap as nat
    }

    /// A ring for `cap` samples, and for 8 at least. It is allocated whole,
    /// so `cap` samples have to fit into memory.
    pub fn new(cap: usize) -> (res: Self)
        requires
            cap <= isize::MAX / 8,
        ensures
            res.wf(),
            res.capacity() == (if cap < 8 {
                8
            } else {
                cap as nat
            }),
            res@ == Seq::<u64>::empty(),
    {
        let cap: usize = if cap < 8 {
            8
        } else {
            cap
        };
        LatencyHistogram { samples: vec![0;cap], cap, next: 0, count: 0 }
    }

    pub fn record(&mut self, ms: u64)
        requires
            old(self).wf(),
        ensures
            final(self).wf(),
            final(self).capacity() == old(self).capacity(),
            final(self)@ == slid(old(self)@, old(self).capacity(), ms),
    {
        let at: usize = self.next;
        self.samples.set(at, ms);
        self.next = (self.next + 1) % self.cap;
        self.count = if self.count + 1 < self.cap {
            self.count + 1
        } else {
            self.cap
        };
        proof {
            let was = old(self);
            if at + 1 < self.cap {
                vstd::arithmetic::div_mod::lemma_small_mod((at + 1) as nat, self.cap as nat);
            } else {
                vstd::arithmetic::div_mod::lemma_mod_self_0(self.cap as int);
            }
            if was.count < was.cap {
                if self.count < self.cap {
                    assert(self.samples@.take(self.count as int) =~= was.samples@.take(
                        was.count as int,
                    ).push(ms));
                } else {
                    assert(self.next == 0);
                    assert(self.samples@.skip(0) + self.samples@.take(0) =~= was.samples@.take(
                        was.count as int,
                    ).push(ms));
                }
            } else {
                assert(self@ =~= was@.drop_first().push(ms));
            }
        }
    }

    pub fn len(&self) -> (res: usize)
        requires
            self.wf(),
        ensures
            res == self@.len(),
    {
        self.count
    }

    pub fn is_empty(&self) -> (res: bool)
        requires
            self.wf(),
        ensures
            res == (self@.len() == 0),
    {
        self.count == 0
    }

    /// Approximate percentile in \[0, 100\]. Returns `None` if no samples.
    pub fn percentile(&self, pct: u8) -> (res: Option<u64>)
        requires
            self.wf(),
        ensures
            res == at_percent(self@, pct),
    {
        if self.count == 0 {
            return None;
        }
        let mut part: Vec<u64> = Vec::new();
        let mut i: usize = 0;
        while i < self.count
            invariant
                self.wf(),
                i <= self.count,
                part@ == self.samples@.take(i as int),
            decreases self.count - i,
        {
            part.push(self.samples[i]);
            assert(self.samples@.take(i + 1) =~= self.samples@.take(i as int).push(
                self.samples@[i as int],
            ));
            i += 1;
        }
        let v = sorted(&part);
        proof {
            if self.count == self.cap {
                assert(part@ =~= self.samples@.take(self.next as int) + self.samples@.skip(
                    self.next as int,
                ));
                lemma_order_does_not_matter(
                    self.samples@.take(self.next as int),
                    self.samples@.skip(self.next as int),
                );
            }
        }
        let pct: u128 = if pct > 100 {
            100
        } else {
            pct as u128
        };
        let last: u128 = (v.len() - 1) as u128;
        assert(0 <= pct * last <= 100 * last) by (nonlinear_arith)
            requires
                0 <= pct <= 100,
                0 <= last,
        ;
        let idx: usize = (pct * last / 100) as usize;
        Some(v[idx])
    }

    pub fn p95(&self) -> (res: Option<u64>)
        requires
            self.wf(),
        ensures
            res == at_percent(self@, 95),
    {
        self.percentile(95)
    }

    pub fn p50(&self) -> (res: Option<u64>)
        requires
            self.wf(),
        ensures
            res == at_percent(self@, 50),
    {
        self.percentile(50)
    }
}

/// Sorting does not depend on where the ring starts.
proof fn lemma_order_does_not_matter(a: Seq<u64>, b: Seq<u64>)
    ensures
        ascending(a + b) == ascending(b + a),
{
    let leq = |x: u64, y: u64| x <= y;
    vstd::seq_lib::lemma_multiset_commutative(a, b);
    vstd::seq_lib::lemma_multiset_commutative(b, a);
    assert(a.to_multiset().add(b.to_multiset()) =~= b.to_multiset().add(a.to_multiset()));
    (a + b).lemma_sort_by_ensures(leq);
    (b + a).lemma_sort_by_ensures(leq);
    vstd::seq_lib::lemma_sorted_unique(ascending(a + b), ascending(b + a), leq);
}

impl Default for LatencyHistogram {
    fn default() -> (res: Self)
        ensures
            res.wf(),
            res.capacity() == 64,
            res@ == Seq::<u64>::empty(),
    {
        Self::new(64)
    }
}

/// A percentile is one of the samples.
pub proof fn law_percentile_is_a_sample(samples: Seq<u64>, pct: u8)
    requires
        samples.len() > 0,
    ensures
        at_percent(samples, pct) matches Some(v) && samples.contains(v),
{
    let leq = |a: u64, b: u64| a <= b;
    samples.lemma_sort_by_ensures(leq);
    lemma_sorted_len(samples);
    let p: int = if pct > 100 {
        100
    } else {
        pct as int
    };
    lemma_index(p, samples.len() as int);
    let i = p * (samples.len() - 1) / 100;
    let v = ascending(samples)[i];
    assert(ascending(samples).contains(v));
}

/// A higher percentile is never smaller.
pub proof fn law_percentile_monotone(samples: Seq<u64>, low: u8, high: u8)
    requires
        samples.len() > 0,
        low <= high,
    ensures
        at_percent(samples, low).unwrap() <= at_percent(samples, high).unwrap(),
{
    let leq = |a: u64, b: u64| a <= b;
    samples.lemma_sort_by_ensures(leq);
    lemma_sorted_len(samples);
    let n = samples.len() - 1;
    let p: int = if low > 100 {
        100
    } else {
        low as int
    };
    let q: int = if high > 100 {
        100
    } else {
        high as int
    };
    lemma_index(p, samples.len() as int);
    lemma_index(q, samples.len() as int);
    assert(p * n <= q * n) by (nonlinear_arith)
        requires
            p <= q,
            0 <= n,
    ;
    vstd::arithmetic::div_mod::lemma_div_is_ordered(p * n, q * n, 100);
    let i = p * n / 100;
    let j = q * n / 100;
    if i < j {
        assert(leq(ascending(samples)[i], ascending(samples)[j]));
    }
}

proof fn lemma_sorted_len(samples: Seq<u64>)
    ensures
        ascending(samples).len() == samples.len(),
{
    broadcast use vstd::seq_lib::group_to_multiset_ensures;

    samples.lemma_sort_by_ensures(|a: u64, b: u64| a <= b);
    assert(ascending(samples).to_multiset().len() == samples.to_multiset().len());
}

proof fn lemma_index(p: int, n: int)
    requires
        0 <= p <= 100,
        0 < n,
    ensures
        0 <= p * (n - 1) / 100 < n,
{
    assert(0 <= p * (n - 1) <= 100 * (n - 1)) by (nonlinear_arith)
        requires
            0 <= p <= 100,
            0 < n,
    ;
}

/// The samples of a tracker.
#[verifier::ext_equal]
pub struct TrackerView {
    pub by_tool: Map<Seq<char>, Seq<u64>>,
    pub global: Seq<u64>,
}

/// How many samples a tracker keeps of each tool, and of all together.
pub const WINDOW: usize = 64;

impl TrackerView {
    pub open spec fn blank() -> TrackerView {
        TrackerView { by_tool: Map::empty(), global: Seq::empty() }
    }

    /// The samples of one tool.
    pub open spec fn of_tool(self, tool: Seq<char>) -> Seq<u64> {
        if self.by_tool.dom().contains(tool) {
            self.by_tool[tool]
        } else {
            Seq::empty()
        }
    }

    /// One more sample, kept with its tool and with all.
    pub open spec fn recorded(self, tool: Seq<char>, ms: u64) -> TrackerView {
        TrackerView {
            by_tool: self.by_tool.insert(tool, slid(self.of_tool(tool), WINDOW as nat, ms)),
            global: slid(self.global, WINDOW as nat, ms),
        }
    }

    /// The p95 of the tool where it has samples, else that of all.
    pub open spec fn p95(self, tool: Option<Seq<char>>) -> Option<u64> {
        match tool {
            Some(name) if self.of_tool(name).len() > 0 => at_percent(self.of_tool(name), 95),
            _ => at_percent(self.global, 95),
        }
    }
}

/// Per-tool + global latency tracker.
#[derive(Debug)]
pub struct ToolLatencyTracker {
    by_tool: Vec<(String, LatencyHistogram)>,
    global: LatencyHistogram,
}

spec fn has_tool(v: Seq<(String, LatencyHistogram)>, tool: Seq<char>) -> bool {
    exists|i: int| 0 <= i < v.len() && (#[trigger] v[i]).0@ == tool
}

spec fn tool_index(v: Seq<(String, LatencyHistogram)>, tool: Seq<char>) -> int {
    choose|i: int| 0 <= i < v.len() && (#[trigger] v[i]).0@ == tool
}

impl View for ToolLatencyTracker {
    type V = TrackerView;

    closed spec fn view(&self) -> TrackerView {
        TrackerView {
            by_tool: Map::new(
                |tool: Seq<char>| has_tool(self.by_tool@, tool),
                |tool: Seq<char>| self.by_tool@[tool_index(self.by_tool@, tool)].1@,
            ),
            global: self.global@,
        }
    }
}

impl ToolLatencyTracker {
    /// Each tool has one window.
    pub closed spec fn wf(self) -> bool {
        &&& self.global.wf()
        &&& self.global.capacity() == WINDOW
        &&& forall|i: int|
            0 <= i < self.by_tool@.len() ==> (#[trigger] self.by_tool@[i]).1.wf()
                && self.by_tool@[i].1.capacity() == WINDOW
        &&& forall|i: int, j: int|
            0 <= i < j < self.by_tool@.len() ==> (#[trigger] self.by_tool@[i]).0@ != (
            #[trigger] self.by_tool@[j]).0@
    }

    pub fn new() -> (res: Self)
        ensures
            res.wf(),
            res@ == TrackerView::blank(),
    {
        let res = ToolLatencyTracker { by_tool: Vec::new(), global: LatencyHistogram::default() };
        assert(res@ =~= TrackerView::blank());
        res
    }

    /// Where the tool's window stands.
    fn find(&self, tool: &str) -> (res: Option<usize>)
        ensures
            match res {
                Some(i) => i < self.by_tool@.len() && self.by_tool@[i as int].0@ == tool@,
                None => !has_tool(self.by_tool@, tool@),
            },
    {
        let wanted: String = tool.to_string();
        let mut i: usize = 0;
        while i < self.by_tool.len()
            invariant
                wanted@ == tool@,
                i <= self.by_tool@.len(),
                forall|j: int| 0 <= j < i ==> (#[trigger] self.by_tool@[j]).0@ != tool@,
            decreases self.by_tool@.len() - i,
        {
            if self.by_tool[i].0 == wanted {
                return Some(i);
            }
            i += 1;
        }
        None
    }

    pub fn record(&mut self, tool: &str, ms: u64)
        requires
            old(self).wf(),
        ensures
            final(self).wf(),
            final(self)@ == old(self)@.recorded(tool@, ms),
    {
        self.global.record(ms);
        match self.find(tool) {
            Some(i) => {
                let entry = self.by_tool.remove(i);
                let (name, mut window) = entry;
                window.record(ms);
                self.by_tool.insert(i, (name, window));
                proof {
                    let was = old(self).by_tool@;
                    let now = self.by_tool@;
                    assert(now.len() == was.len());
                    assert(forall|j: int|
                        0 <= j < was.len() && j != i ==> #[trigger] now[j] == was[j]);
                    assert(now[i as int].0@ == was[i as int].0@);
                    assert forall|t: Seq<char>| has_tool(was, t) == #[trigger] has_tool(now, t) by {
                        if has_tool(was, t) {
                            let k = tool_index(was, t);
                            assert(now[k].0@ == t);
                        }
                        if has_tool(now, t) {
                            let k = tool_index(now, t);
                            assert(was[k].0@ == t);
                        }
                    }
                    assert forall|t: Seq<char>| #[trigger] has_tool(now, t) implies tool_index(
                        now,
                        t,
                    ) == tool_index(was, t) by {
                        let k = tool_index(now, t);
                        assert(was[k].0@ == t);
                        let l = tool_index(was, t);
                        assert(was[l].0@ == t);
                    }
                    assert(has_tool(was, tool@)) by {
                        assert(was[i as int].0@ == tool@);
                    }
                    assert(tool_index(was, tool@) == i);
                    assert(self@ =~= old(self)@.recorded(tool@, ms));
                }
            },
            None => {
                let mut window = LatencyHistogram::default();
                window.record(ms);
                let ghost was = self.by_tool@;
                self.by_tool.push((tool.to_string(), window));
                proof {
                    let now = self.by_tool@;
                    assert(forall|j: int| 0 <= j < was.len() ==> #[trigger] now[j] == was[j]);
                    assert(now[was.len() as int].0@ == tool@);
                    assert forall|t: Seq<char>| #[trigger] has_tool(now, t) == (has_tool(was, t) || t
                        == tool@) by {
                        if has_tool(was, t) {
                            let k = tool_index(was, t);
                            assert(now[k].0@ == t);
                        }
                        if has_tool(now, t) && t != tool@ {
                            let k = tool_index(now, t);
                            assert(was[k].0@ == t);
                        }
                    }
                    assert forall|t: Seq<char>| #[trigger] has_tool(was, t) implies tool_index(now, t)
                        == tool_index(was, t) by {
                        let k = tool_index(was, t);
                        assert(now[k].0@ == t);
                        let l = tool_index(now, t);
                        assert(now[l].0@ == t);
                        assert(l < was.len());
                    }
                    assert(tool_index(now, tool@) == was.len());
                    assert(self@ =~= old(self)@.recorded(tool@, ms));
                }
            },
        }
    }

    /// Prefer tool-specific p95, else global p95.
    pub fn p95_for(&self, tool: Option<&str>) -> (res: Option<u64>)
        requires
            self.wf(),
        ensures
            res == self@.p95(
                match tool {
                    Some(name) => Some(name@),
                    None => None,
                },
            ),
    {
        if let Some(name) = tool {
            if let Some(i) = self.find(name) {
                proof {
                    assert(has_tool(self.by_tool@, name@));
                    assert(tool_index(self.by_tool@, name@) == i);
                }
                if let Some(p) = self.by_tool[i].1.p95() {
                    return Some(p);
                }
            }
        }
        self.global.p95()
    }

    pub fn global_p95(&self) -> (res: Option<u64>)
        requires
            self.wf(),
        ensures
            res == at_percent(self@.global, 95),
    {
        self.global.p95()
    }

    pub fn sample_count(&self) -> (res: usize)
        requires
            self.wf(),
        ensures
            res == self@.global.len(),
    {
        self.global.len()
    }
}

impl Default for ToolLatencyTracker {
    fn default() -> (res: Self)
        ensures
            res.wf(),
            res@ == TrackerView::blank(),
    {
        Self::new()
    }
}

/// A sample of one tool says nothing of another.
pub proof fn law_tools_apart(t: TrackerView, tool: Seq<char>, ms: u64, other: Seq<char>)
    requires
        tool != other,
    ensures
        t.recorded(tool, ms).of_tool(other) == t.of_tool(other),
{
}

/// The newest sample stands last in its tool's window and in the common one.
pub proof fn law_newest_sample_kept(t: TrackerView, tool: Seq<char>, ms: u64)
    ensures
        t.recorded(tool, ms).of_tool(tool).last() == ms,
        t.recorded(tool, ms).global.last() == ms,
{
}

/// A window never grows over its capacity.
pub proof fn law_window_bounded(window: Seq<u64>, cap: nat, ms: u64)
    requires
        window.len() <= cap,
        cap > 0,
    ensures
        0 < slid(window, cap, ms).len() <= cap,
{
}

/// A percentile is the sample at its place in the ascending order, however the
/// samples came: the smallest at 0, the greatest at 100 or more, and an only
/// sample at any.
pub proof fn law_percentile_place(samples: Seq<u64>, order: Seq<u64>, pct: u8)
    requires
        samples.len() > 0,
        order.to_multiset() == samples.to_multiset(),
        forall|i: int, j: int| 0 <= i < j < order.len() ==> order[i] <= order[j],
    ensures
        order.len() == samples.len(),
        pct <= 100 ==> at_percent(samples, pct) == Some(order[pct * (samples.len() - 1) / 100]),
        pct >= 100 ==> at_percent(samples, pct) == Some(order[samples.len() - 1]),
        pct == 0 ==> at_percent(samples, pct) == Some(order[0]),
        at_percent(Seq::empty(), pct) is None,
{
    let leq = |a: u64, b: u64| a <= b;
    samples.lemma_sort_by_ensures(leq);
    assert(vstd::relations::sorted_by(order, leq));
    vstd::seq_lib::lemma_sorted_unique(ascending(samples), order, leq);
    assert(order.len() == order.to_multiset().len()) by {
        broadcast use vstd::seq_lib::group_to_multiset_ensures;

    }
    assert(samples.len() == samples.to_multiset().len()) by {
        broadcast use vstd::seq_lib::group_to_multiset_ensures;

    }
    assert(100 * (samples.len() - 1) / 100 == samples.len() - 1);
}

/// What is expected of a tool is the 95th percent of its own samples, and that
/// of all samples where it has none or is not named.
pub proof fn law_p95_of_the_tool(t: TrackerView, tool: Seq<char>)
    ensures
        t.by_tool.dom().contains(tool) && t.by_tool[tool].len() > 0 ==> t.p95(Some(tool))
            == at_percent(t.by_tool[tool], 95),
        !t.by_tool.dom().contains(tool) ==> t.p95(Some(tool)) == at_percent(t.global, 95),
        t.p95(None) == at_percent(t.global, 95),
{
}

/// A window keeps the newest samples in the order in which they came: a sample
/// joins at the end, and where the window is full the oldest leaves.
pub proof fn law_window_slides(window: Seq<u64>, cap: nat, ms: u64)
    requires
        window.len() <= cap,
        cap > 0,
    ensures
        window.len() < cap ==> slid(window, cap, ms) == window.push(ms),
        window.len() == cap ==> slid(window, cap, ms) == window.push(ms).drop_first(),
{
    if window.len() == cap {
        assert(slid(window, cap, ms) =~= window.push(ms).drop_first());
    }
}

/// A sample is kept with its tool and with all, sixty-four of each.
pub proof fn law_sample_kept(t: TrackerView, tool: Seq<char>, ms: u64)
    ensures
        t.of_tool(tool).len() < 64 ==> t.recorded(tool, ms).of_tool(tool) == t.of_tool(tool).push(
            ms,
        ),
        t.global.len() < 64 ==> t.recorded(tool, ms).global == t.global.push(ms),
        t.of_tool(tool).len() == 64 ==> t.recorded(tool, ms).of_tool(tool) == t.of_tool(
            tool,
        ).push(ms).drop_first(),
        t.global.len() == 64 ==> t.recorded(tool, ms).global == t.global.push(ms).drop_first(),
{
    if t.of_tool(tool).len() == 64 {
        law_window_slides(t.of_tool(tool), 64, ms);
    }
    if t.global.len() == 64 {
        law_window_slides(t.global, 64, ms);
    }
}

} // verus!
