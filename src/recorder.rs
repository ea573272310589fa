use vstd::prelude::*;

verus! {

/// A metric category to publish, every `interval` ticks.
pub struct MetricCategory {
    pub name: String,
    pub interval: u64,
}

/// A category fires on the ticks whose counter is a multiple of its interval.
pub open spec fn fires_at(counter: u64, interval: u64) -> bool
    recommends
        interval > 0,
{
    counter % interval == 0
}

pub fn fires(counter: u64, interval: u64) -> (r: bool)
    requires
        interval > 0,
    ensures
        r == fires_at(counter, interval),
{
    counter % interval == 0
}

/// A category with interval 1 fires on every tick; one with interval `k` fires on
/// every `k`-th tick from tick 0 on, and on no other.
pub proof fn lemma_fires_every_interval(counter: u64, k: u64)
    requires
        k > 0,
    ensures
        fires_at(counter, 1),
        fires_at(counter, k) <==> exists|m: int| 0 <= m && counter == #[trigger] (m * k),
{
    if fires_at(counter, k) {
        let m = counter as int / k as int;
        assert(counter == m * k) by (nonlinear_arith)
            requires
                counter as int % k as int == 0,
                m == counter as int / k as int,
                k > 0,
        ;
        assert(0 <= m) by (nonlinear_arith)
            requires
                m == counter as int / k as int,
                k > 0,
                counter >= 0,
        ;
    }
    if exists|m: int| 0 <= m && counter == #[trigger] (m * k) {
        let m = choose|m: int| 0 <= m && counter == #[trigger] (m * k);
        vstd::arithmetic::div_mod::lemma_mod_multiples_basic(m, k as int);
    }
}

/// The indices, in order, of the first `n` categories that fire at `counter`.
pub open spec fn due_upto(cats: Seq<MetricCategory>, counter: u64, n: int) -> Seq<usize>
    decreases n,
{
    if n <= 0 {
        Seq::empty()
    } else if fires_at(counter, cats[n - 1].interval) {
        due_upto(cats, counter, n - 1).push((n - 1) as usize)
    } else {
        due_upto(cats, counter, n - 1)
    }
}

pub open spec fn intervals_positive(cats: Seq<MetricCategory>) -> bool {
    forall|i: int| 0 <= i < cats.len() ==> #[trigger] cats[i].interval > 0
}

/// The recorder's tick counter.
pub struct Recorder {
    counter: u64,
}

impl Recorder {
    pub closed spec fn counter_view(&self) -> u64 {
        self.counter
    }

    pub fn new() -> (r: Recorder)
        ensures
            r.counter_view() == 0,
    {
        Recorder { counter: 0 }
    }

    pub fn counter(&self) -> (r: u64)
        ensures
            r == self.counter_view(),
    {
        self.counter
    }

    /// Plans one tick. Without a ready bus the whole tick is skipped and the counter
    /// stays. Otherwise the result lists, in order, the categories due on this tick,
    /// and the counter moves on by one.
    pub fn tick(&mut self, bus_ready: bool, categories: &Vec<MetricCategory>) -> (r: Option<Vec<usize>>)
        requires
            intervals_positive(categories@),
        ensures
            !bus_ready ==> r is None && final(self).counter_view() == old(self).counter_view(),
            bus_ready ==> r is Some && r->0@ == due_upto(categories@, old(self).counter_view(), categories@.len() as int)
                && final(self).counter_view() == old(self).counter_view().wrapping_add(1),
    {
        if !bus_ready {
            return None;
        }
        let mut due: Vec<usize> = Vec::new();
        let mut i: usize = 0;
        while i < categories.len()
            invariant
                i <= categories@.len(),
                intervals_positive(categories@),
                due@ == due_upto(categories@, self.counter, i as int),
            decreases categories.len() - i,
        {
            if fires(self.counter, categories[i].interval) {
                due.push(i);
            }
            i = i + 1;
        }
        self.counter = self.counter.wrapping_add(1);
        Some(due)
    }
}

/// `s` with every hyphen turned into an underscore.
pub open spec fn underscored(s: Seq<char>) -> Seq<char> {
    s.map_values(|c: char| if c == '-' { '_' } else { c })
}

/// Relies on `str::replace`: every `-` replaced by `_`, the rest kept.
#[verifier::external_body]
fn replace_hyphens(s: &str) -> (r: String)
    ensures
        r@ == underscored(s@),
{
    s.replace('-', "_")
}

/// The bus topic of a category: `system_information/` and its name with hyphens
/// turned into underscores.
pub fn category_topic(name: &str) -> (r: String)
    ensures
        r@ == "system_information/"@ + underscored(name@),
{
    let tail = replace_hyphens(name);
    let mut topic = String::from_str("system_information/");
    topic.append(tail.as_str());
    topic
}

} // verus!
