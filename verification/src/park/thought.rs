//! What a guest is thinking.
//!
//! Every guest keeps the last thing it thought, and the park can be asked what
//! the crowd is saying — which is the difference between a number going down
//! and knowing why.

use vstd::prelude::*;
use vstd::string::*;

use crate::park::Park;
use crate::text::{
    before, decimal, decimal_of, join, join3, lemma_decimal_injective, lemma_decimal_len, lex_less,
    lex_less_chains, lex_less_is_one_way, lex_less_is_total,
};

verus! {

/// The last thing a guest thought.
#[derive(Debug, Clone, Copy, PartialEq, Eq, Hash, Structural)]
pub enum Thought {
    /// Nothing in particular. What a guest thinks on the way in.
    LookingAround,
    /// It wants a drink and cannot find one.
    Thirsty,
    /// It wants something to eat and cannot find it.
    Hungry,
    /// It needs a toilet and there is not one.
    Bursting,
    /// It has been walking too long with nowhere to sit.
    Footsore,
    /// It came here to go on something and there is nothing to go on.
    Bored,
    /// It stood in a line that never moved.
    GaveUpQueueing(u32),
    /// It went on something and enjoyed it.
    LovedIt(u32),
    /// It went on something and would rather not have.
    Shaken(u32),
    /// It will not pay what something is asking.
    TooDear,
    /// It is standing in somebody else's rubbish.
    Litter,
    /// It has had enough and is leaving.
    GoingHome,
}

/// Whether `t` is a complaint rather than an observation.
pub open spec fn complains(t: Thought) -> bool {
    !(t is LookingAround || t is LovedIt)
}

/// The ride `t` is about, if it is about one.
pub open spec fn about_ride(t: Thought) -> Option<u32> {
    match t {
        Thought::GaveUpQueueing(r) | Thought::LovedIt(r) | Thought::Shaken(r) => Some(r),
        _ => None,
    }
}

/// What a guest thinking `t` would say, naming the ride `ride`.
pub open spec fn saying(t: Thought, ride: Seq<char>) -> Seq<char> {
    match t {
        Thought::LookingAround => "Just looking around"@,
        Thought::Thirsty => "I'm thirsty"@,
        Thought::Hungry => "I'm hungry"@,
        Thought::Bursting => "I need the toilet"@,
        Thought::Footsore => "My feet are killing me"@,
        Thought::Bored => "There's nothing to go on"@,
        Thought::GaveUpQueueing(_) => "The queue for "@ + ride + " is too long"@,
        Thought::LovedIt(_) => ride + " was great"@,
        Thought::Shaken(_) => ride + " shook me about"@,
        Thought::TooDear => "That's too expensive"@,
        Thought::Litter => "This place is a tip"@,
        Thought::GoingHome => "I'm going home"@,
    }
}

impl Thought {
    /// What a guest thinks on the way in.
    pub fn default() -> (t: Self)
        ensures
            t == Thought::LookingAround,
    {
        Thought::LookingAround
    }

    /// Whether this is a complaint rather than an observation.
    pub fn is_a_complaint(self) -> (b: bool)
        ensures
            b == complains(self),
    {
        matches!(
            self,
            Thought::Thirsty | Thought::Hungry | Thought::Bursting | Thought::Footsore
                | Thought::Bored | Thought::GaveUpQueueing(_) | Thought::Shaken(_)
                | Thought::TooDear | Thought::Litter | Thought::GoingHome
        )
    }

    /// The ride this thought is about, if it is about one.
    pub fn ride(self) -> (r: Option<u32>)
        ensures
            r == about_ride(self),
    {
        match self {
            Thought::GaveUpQueueing(ride) | Thought::LovedIt(ride) | Thought::Shaken(ride) => Some(
                ride,
            ),
            _ => None,
        }
    }

    /// What the guest would say, with `ride` standing in for whatever it is
    /// about.
    ///
    /// The park fills the name in, because a thought does not know what rides
    /// are called.
    pub fn said_about(self, ride: &str) -> (s: String)
        ensures
            s@ == saying(self, ride@),
    {
        match self {
            Thought::LookingAround => String::from_str("Just looking around"),
            Thought::Thirsty => String::from_str("I'm thirsty"),
            Thought::Hungry => String::from_str("I'm hungry"),
            Thought::Bursting => String::from_str("I need the toilet"),
            Thought::Footsore => String::from_str("My feet are killing me"),
            Thought::Bored => String::from_str("There's nothing to go on"),
            Thought::GaveUpQueueing(_) => String::from_str("The queue for ").concat(ride).concat(
                " is too long",
            ),
            Thought::LovedIt(_) => String::from_str(ride).concat(" was great"),
            Thought::Shaken(_) => String::from_str(ride).concat(" shook me about"),
            Thought::TooDear => String::from_str("That's too expensive"),
            Thought::Litter => String::from_str("This place is a tip"),
            Thought::GoingHome => String::from_str("I'm going home"),
        }
    }
}

/// Enjoying yourself is not a complaint, and only the thoughts about a ride
/// carry one.
pub proof fn enjoying_yourself_is_not_a_complaint(t: Thought)
    ensures
        (t is LovedIt || t is LookingAround) <==> !complains(t),
        about_ride(t) is Some <==> (t is GaveUpQueueing || t is LovedIt || t is Shaken),
{
}

/// The name a thought goes by when two are told apart: the kind of thought,
/// and the ride it is about in brackets after it.
pub open spec fn thought_label(t: Thought) -> Seq<char> {
    match t {
        Thought::LookingAround => "LookingAround"@,
        Thought::Thirsty => "Thirsty"@,
        Thought::Hungry => "Hungry"@,
        Thought::Bursting => "Bursting"@,
        Thought::Footsore => "Footsore"@,
        Thought::Bored => "Bored"@,
        Thought::GaveUpQueueing(r) => "GaveUpQueueing("@ + decimal_of(r as nat) + ")"@,
        Thought::LovedIt(r) => "LovedIt("@ + decimal_of(r as nat) + ")"@,
        Thought::Shaken(r) => "Shaken("@ + decimal_of(r as nat) + ")"@,
        Thought::TooDear => "TooDear"@,
        Thought::Litter => "Litter"@,
        Thought::GoingHome => "GoingHome"@,
    }
}

impl Thought {
    /// The name this thought goes by when two are told apart.
    pub fn label(self) -> (s: String)
        ensures
            s@ == thought_label(self),
    {
        match self {
            Thought::LookingAround => String::from_str("LookingAround"),
            Thought::Thirsty => String::from_str("Thirsty"),
            Thought::Hungry => String::from_str("Hungry"),
            Thought::Bursting => String::from_str("Bursting"),
            Thought::Footsore => String::from_str("Footsore"),
            Thought::Bored => String::from_str("Bored"),
            Thought::GaveUpQueueing(r) => {
                let n = decimal(r as u64);
                join3("GaveUpQueueing(", n.as_str(), ")")
            },
            Thought::LovedIt(r) => {
                let n = decimal(r as u64);
                join3("LovedIt(", n.as_str(), ")")
            },
            Thought::Shaken(r) => {
                let n = decimal(r as u64);
                join3("Shaken(", n.as_str(), ")")
            },
            Thought::TooDear => String::from_str("TooDear"),
            Thought::Litter => String::from_str("Litter"),
            Thought::GoingHome => String::from_str("GoingHome"),
        }
    }
}

/// How many times `t` comes up in `ts`.
pub open spec fn times(ts: Seq<Thought>, t: Thought) -> nat
    decreases ts.len(),
{
    if ts.len() == 0 {
        0
    } else {
        times(ts.drop_last(), t) + if ts.last() == t {
            1nat
        } else {
            0nat
        }
    }
}

/// Whether the complaint `a` is reported ahead of `b`: it was heard more
/// often, or as often and it goes by a name that sorts first.
pub open spec fn heard_first(a: (Thought, usize), b: (Thought, usize)) -> bool {
    a.1 > b.1 || (a.1 == b.1 && lex_less(thought_label(a.0), thought_label(b.0)))
}

/// Whether `said` is a count of the complaints among `ts`: each complaint that
/// was thought once, with how many times it was.
pub open spec fn tallied(ts: Seq<Thought>, said: Seq<(Thought, usize)>) -> bool {
    &&& forall|i: int|
        0 <= i < said.len() ==> complains((#[trigger] said[i]).0) && said[i].1 == times(ts, said[i].0)
            && said[i].1 > 0
    &&& forall|i: int, j: int| 0 <= i < j < said.len() ==> (#[trigger] said[i]).0 != (#[trigger] said[j]).0
    &&& forall|t: Thought|
        complains(t) && #[trigger] times(ts, t) > 0 ==> exists|i: int|
            0 <= i < said.len() && (#[trigger] said[i]).0 == t
}

/// Nobody thinks a thought more often than there are thoughts.
proof fn lemma_times_at_most(ts: Seq<Thought>, t: Thought)
    ensures
        times(ts, t) <= ts.len(),
    decreases ts.len(),
{
    if ts.len() > 0 {
        lemma_times_at_most(ts.drop_last(), t);
    }
}

/// Where `t` was first counted in `said`, if it was.
fn place_of_thought(said: &Vec<(Thought, usize)>, t: Thought) -> (at: Option<usize>)
    ensures
        at matches Some(j) ==> j < said@.len() && said@[j as int].0 == t,
        at is None ==> forall|k: int| 0 <= k < said@.len() ==> (#[trigger] said@[k]).0 != t,
{
    let mut j: usize = 0;
    while j < said.len()
        invariant
            j <= said@.len(),
            forall|k: int| 0 <= k < j ==> (#[trigger] said@[k]).0 != t,
        decreases said@.len() - j,
    {
        if said[j].0 == t {
            return Some(j);
        }
        j += 1;
    }
    None
}

/// Where `x` goes among `sorted`: in front of the first that it is reported
/// ahead of, or at the end.
fn place_for(sorted: &Vec<(Thought, usize)>, x: (Thought, usize)) -> (p: usize)
    ensures
        p <= sorted@.len(),
        forall|k: int| 0 <= k < p ==> !heard_first(x, #[trigger] sorted@[k]),
        p < sorted@.len() ==> heard_first(x, sorted@[p as int]),
{
    let mut p: usize = 0;
    while p < sorted.len()
        invariant
            p <= sorted@.len(),
            forall|k: int| 0 <= k < p ==> !heard_first(x, #[trigger] sorted@[k]),
        decreases sorted@.len() - p,
    {
        if is_heard_first(x, sorted[p]) {
            return p;
        }
        p += 1;
    }
    p
}

/// Counts the complaints among `thoughts`, each once with how often it came
/// up, in the order they were first heard.
fn tally(thoughts: &[Thought]) -> (said: Vec<(Thought, usize)>)
    ensures
        tallied(thoughts@, said@),
{
    let mut said: Vec<(Thought, usize)> = Vec::new();
    let mut n: usize = 0;
    while n < thoughts.len()
        invariant
            n <= thoughts@.len(),
            tallied(thoughts@.take(n as int), said@),
        decreases thoughts@.len() - n,
    {
        let t = thoughts[n];
        let ghost seen = thoughts@.take(n as int);
        let ghost next = thoughts@.take(n as int + 1);
        proof {
            assert(next.drop_last() =~= seen);
            assert(next.last() == t);
            assert(forall|x: Thought| #[trigger] times(next, x) == times(seen, x) + if x == t { 1nat } else { 0nat });
            lemma_times_at_most(seen, t);
        }
        if t.is_a_complaint() {
            let place = place_of_thought(&said, t);
            if let Some(j) = place {
                let c = said[j].1;
                let ghost before_set = said@;
                said.set(j, (t, c + 1));
                proof {
                    assert(said@ =~= before_set.update(j as int, (t, (c + 1) as usize)));
                    assert forall|x: Thought|
                        complains(x) && #[trigger] times(next, x) > 0 implies exists|i: int|
                            0 <= i < said@.len() && (#[trigger] said@[i]).0 == x by {
                        if x == t {
                            assert(said@[j as int].0 == x);
                        } else {
                            let i = choose|i: int| 0 <= i < before_set.len() && (#[trigger] before_set[i]).0 == x;
                            assert(said@[i].0 == x);
                        }
                    }
                }
            } else {
                let ghost before_push = said@;
                said.push((t, 1));
                proof {
                    if times(seen, t) > 0 {
                        let i = choose|i: int| 0 <= i < before_push.len() && (#[trigger] before_push[i]).0 == t;
                        assert(false);
                    }
                    assert forall|x: Thought|
                        complains(x) && #[trigger] times(next, x) > 0 implies exists|i: int|
                            0 <= i < said@.len() && (#[trigger] said@[i]).0 == x by {
                        if x == t {
                            assert(said@[before_push.len() as int].0 == x);
                        } else {
                            let i = choose|i: int| 0 <= i < before_push.len() && (#[trigger] before_push[i]).0 == x;
                            assert(said@[i].0 == x);
                        }
                    }
                }
            }
        } else {
            proof {
                assert forall|x: Thought|
                    complains(x) && #[trigger] times(next, x) > 0 implies exists|i: int|
                        0 <= i < said@.len() && (#[trigger] said@[i]).0 == x by {
                    assert(times(seen, x) > 0);
                }
            }
        }
        n += 1;
    }
    proof {
        assert(thoughts@.take(thoughts@.len() as int) =~= thoughts@);
    }
    said
}

/// Whether `a` is reported ahead of `b`.
fn is_heard_first(a: (Thought, usize), b: (Thought, usize)) -> (first: bool)
    ensures
        first == heard_first(a, b),
{
    if a.1 != b.1 {
        a.1 > b.1
    } else {
        let x = a.0.label();
        let y = b.0.label();
        before(x.as_str(), y.as_str())
    }
}

/// Nothing is reported both ahead of and behind something else, and ahead of
/// what is ahead of is ahead.
proof fn lemma_heard_first_orders(a: (Thought, usize), b: (Thought, usize), c: (Thought, usize))
    ensures
        !(heard_first(a, b) && heard_first(b, a)),
        heard_first(a, b) && heard_first(b, c) ==> heard_first(a, c),
{
    lex_less_is_one_way(thought_label(a.0), thought_label(b.0));
    if heard_first(a, b) && heard_first(b, c) && a.1 == b.1 && b.1 == c.1 {
        lex_less_chains(thought_label(a.0), thought_label(b.0), thought_label(c.0));
    }
}

/// What the crowd is complaining about, most-heard first.
///
/// Each complaint among `thoughts` once, with how many are thinking it. Ties
/// are broken by what the complaint is, so that the same crowd always reports
/// in the same order.
pub fn complaints(thoughts: &[Thought]) -> (said: Vec<(Thought, usize)>)
    ensures
        tallied(thoughts@, said@),
        in_report_order(said@),
{
    let heard = tally(thoughts);
    let mut sorted: Vec<(Thought, usize)> = Vec::new();
    let mut i: usize = 0;
    while i < heard.len()
        invariant
            i <= heard@.len(),
            tallied(thoughts@, heard@),
            sorted@.len() == i,
            forall|k: int| 0 <= k < sorted@.len() ==> heard@.take(i as int).contains(#[trigger] sorted@[k]),
            forall|k: int| 0 <= k < i ==> sorted@.contains(#[trigger] heard@[k]),
            forall|a: int, b: int| 0 <= a < b < sorted@.len() ==> (#[trigger] sorted@[a]).0 != (#[trigger] sorted@[b]).0,
            forall|a: int, b: int|
                0 <= a < b < sorted@.len() ==> !heard_first(#[trigger] sorted@[b], #[trigger] sorted@[a]),
        decreases heard@.len() - i,
    {
        let x = heard[i];
        let p = place_for(&sorted, x);
        let ghost old_sorted = sorted@;
        let ghost taken = heard@.take(i as int);
        proof {
            assert(heard@.take(i as int + 1) =~= taken.push(x));
            // x is a thought not yet placed.
            assert forall|k: int| 0 <= k < old_sorted.len() implies (#[trigger] old_sorted[k]).0 != x.0 by {
                let m = choose|m: int| 0 <= m < taken.len() && taken[m] == old_sorted[k];
                assert(heard@[m] == old_sorted[k]);
            }
        }
        sorted.insert(p, x);
        proof {
            let s = sorted@;
            assert(s.len() == old_sorted.len() + 1);
            assert(forall|k: int| 0 <= k < p ==> s[k] == old_sorted[k]);
            assert(s[p as int] == x);
            assert(forall|k: int| p < k < s.len() ==> s[k] == old_sorted[k - 1]);
            if p < old_sorted.len() {
                assert(heard_first(x, old_sorted[p as int]));
            }
            assert forall|a: int, b: int| 0 <= a < b < s.len() implies !heard_first(#[trigger] s[b], #[trigger] s[a]) by {
                if a < p && b == p {
                } else if a < p && b > p {
                } else if a == p && b > p {
                    let y = old_sorted[b - 1];
                    lemma_heard_first_orders(y, x, old_sorted[p as int]);
                    if b - 1 > p {
                        lemma_heard_first_orders(y, old_sorted[p as int], x);
                    }
                    if heard_first(y, x) {
                        lemma_heard_first_orders(y, x, old_sorted[p as int]);
                    }
                } else {
                }
            }
            assert forall|a: int, b: int| 0 <= a < b < s.len() implies (#[trigger] s[a]).0 != (#[trigger] s[b]).0 by {
                if a == p {
                    assert(old_sorted[b - 1].0 != x.0);
                } else if b == p {
                    assert(old_sorted[a].0 != x.0);
                }
            }
            assert forall|k: int| 0 <= k < s.len() implies heard@.take(i as int + 1).contains(#[trigger] s[k]) by {
                if k == p {
                    assert(heard@.take(i as int + 1)[i as int] == x);
                } else {
                    let o = if k < p { k } else { k - 1 };
                    assert(s[k] == old_sorted[o]);
                    let m = choose|m: int| 0 <= m < taken.len() && taken[m] == old_sorted[o];
                    assert(heard@.take(i as int + 1)[m] == s[k]);
                }
            }
            assert forall|k: int| 0 <= k < i + 1 implies s.contains(#[trigger] heard@[k]) by {
                if k == i {
                    assert(s[p as int] == heard@[k]);
                } else {
                    let m = choose|m: int| 0 <= m < old_sorted.len() && old_sorted[m] == heard@[k];
                    if m < p {
                        assert(s[m] == heard@[k]);
                    } else {
                        assert(s[m + 1] == heard@[k]);
                    }
                }
            }
        }
        i += 1;
    }
    proof {
        let s = sorted@;
        assert(heard@.take(heard@.len() as int) =~= heard@);
        assert forall|k: int| 0 <= k < s.len() implies complains((#[trigger] s[k]).0)
            && s[k].1 == times(thoughts@, s[k].0) && s[k].1 > 0 by {
            let m = choose|m: int| 0 <= m < heard@.len() && heard@[m] == s[k];
            assert(complains(heard@[m].0));
        }
        assert forall|t: Thought|
            complains(t) && #[trigger] times(thoughts@, t) > 0 implies exists|k: int|
                0 <= k < s.len() && (#[trigger] s[k]).0 == t by {
            let m = choose|m: int| 0 <= m < heard@.len() && (#[trigger] heard@[m]).0 == t;
            assert(s.contains(heard@[m]));
            let k = choose|k: int| 0 <= k < s.len() && s[k] == heard@[m];
            assert(s[k].0 == t);
        }
    }
    sorted
}

/// Whether `said` is in the order complaints are reported in.
pub open spec fn in_report_order(said: Seq<(Thought, usize)>) -> bool {
    forall|i: int, j: int| 0 <= i < j < said.len() ==> !heard_first(#[trigger] said[j], #[trigger] said[i])
}

/// What a complaint calls the ride it is about: the ride's own name, or "that
/// ride" when the ride is gone or the complaint is about none.
pub open spec fn ride_named(park: &Park, t: Thought) -> Seq<char> {
    match about_ride(t) {
        Some(id) => if park.has_ride(id) {
            park.rides_of()[park.ride_index(id)].name_of()
        } else {
            "that ride"@
        },
        None => "that ride"@,
    }
}

/// One line of what the crowd is saying: how many are saying it, and what.
pub open spec fn report_line(park: &Park, t: Thought, count: usize) -> Seq<char> {
    decimal_of(count as nat) + " × "@ + saying(t, ride_named(park, t))
}

impl Park {
    /// What the crowd is saying, in words, most-said first.
    ///
    /// The rides are named here rather than in a [`Thought`], because a
    /// thought does not know what anything is called.
    pub fn what_they_say(&self, thoughts: &[Thought]) -> (lines: Vec<String>)
        ensures
            exists|said: Seq<(Thought, usize)>|
                tallied(thoughts@, said) && in_report_order(said) && lines@.len() == said.len() && forall|i: int|
                    0 <= i < said.len() ==> (#[trigger] lines@[i])@ == report_line(self, said[i].0, said[i].1),
    {
        let said = complaints(thoughts);
        let mut lines: Vec<String> = Vec::new();
        let mut i: usize = 0;
        while i < said.len()
            invariant
                i <= said@.len(),
                lines@.len() == i,
                forall|k: int| 0 <= k < i ==> (#[trigger] lines@[k])@ == report_line(self, said@[k].0, said@[k].1),
            decreases said@.len() - i,
        {
            let (t, count) = said[i];
            let about = match t.ride() {
                Some(id) => match self.ride(id) {
                    Some(ride) => String::from_str(ride.name()),
                    None => String::from_str("that ride"),
                },
                None => String::from_str("that ride"),
            };
            let words = t.said_about(about.as_str());
            let n = decimal(count as u64);
            let line = join3(n.as_str(), " × ", words.as_str());
            lines.push(line);
            i += 1;
        }
        proof {
            assert(tallied(thoughts@, said@) && in_report_order(said@));
        }
        lines
    }
}

/// The first three letters of the name each kind of thought goes by.
pub open spec fn label_start(t: Thought) -> Seq<char> {
    match t {
        Thought::LookingAround => seq!['L', 'o', 'o'],
        Thought::Thirsty => seq!['T', 'h', 'i'],
        Thought::Hungry => seq!['H', 'u', 'n'],
        Thought::Bursting => seq!['B', 'u', 'r'],
        Thought::Footsore => seq!['F', 'o', 'o'],
        Thought::Bored => seq!['B', 'o', 'r'],
        Thought::GaveUpQueueing(_) => seq!['G', 'a', 'v'],
        Thought::LovedIt(_) => seq!['L', 'o', 'v'],
        Thought::Shaken(_) => seq!['S', 'h', 'a'],
        Thought::TooDear => seq!['T', 'o', 'o'],
        Thought::Litter => seq!['L', 'i', 't'],
        Thought::GoingHome => seq!['G', 'o', 'i'],
    }
}

/// Every name starts with the three letters of its kind.
proof fn lemma_label_start(t: Thought)
    ensures
        thought_label(t).len() >= 3,
        thought_label(t).take(3) == label_start(t),
{
    reveal_strlit("LookingAround");
    reveal_strlit("Thirsty");
    reveal_strlit("Hungry");
    reveal_strlit("Bursting");
    reveal_strlit("Footsore");
    reveal_strlit("Bored");
    reveal_strlit("GaveUpQueueing(");
    reveal_strlit("LovedIt(");
    reveal_strlit("Shaken(");
    reveal_strlit("TooDear");
    reveal_strlit("Litter");
    reveal_strlit("GoingHome");
    reveal_strlit(")");
    match t {
        Thought::GaveUpQueueing(r) => {
            lemma_decimal_len(r as nat);
        },
        Thought::LovedIt(r) => {
            lemma_decimal_len(r as nat);
        },
        Thought::Shaken(r) => {
            lemma_decimal_len(r as nat);
        },
        _ => {},
    }
    assert(thought_label(t).take(3) =~= label_start(t));
}

/// What a ride thought is about can be read back out of its name.
proof fn lemma_ride_in_label(prefix: &str, a: u32, b: u32)
    requires
        prefix@ + decimal_of(a as nat) + ")"@ == prefix@ + decimal_of(b as nat) + ")"@,
    ensures
        a == b,
{
    reveal_strlit(")");
    let la = prefix@ + decimal_of(a as nat) + ")"@;
    assert(la.len() == prefix@.len() + decimal_of(a as nat).len() + 1);
    assert(decimal_of(a as nat).len() == decimal_of(b as nat).len());
    assert(decimal_of(a as nat) =~= la.subrange(prefix@.len() as int, la.len() - 1));
    assert(decimal_of(b as nat) =~= la.subrange(prefix@.len() as int, la.len() - 1));
    lemma_decimal_injective(a as nat, b as nat);
}

/// No two different thoughts go by the same name.
pub proof fn different_thoughts_go_by_different_names(a: Thought, b: Thought)
    requires
        a != b,
    ensures
        thought_label(a) != thought_label(b),
{
    lemma_label_start(a);
    lemma_label_start(b);
    if thought_label(a) == thought_label(b) {
        assert(label_start(a) == label_start(b));
        match (a, b) {
            (Thought::GaveUpQueueing(x), Thought::GaveUpQueueing(y)) => {
                lemma_ride_in_label("GaveUpQueueing(", x, y);
            },
            (Thought::LovedIt(x), Thought::LovedIt(y)) => {
                lemma_ride_in_label("LovedIt(", x, y);
            },
            (Thought::Shaken(x), Thought::Shaken(y)) => {
                lemma_ride_in_label("Shaken(", x, y);
            },
            _ => {
                assert(label_start(a)[0] == label_start(b)[0]);
                assert(label_start(a)[1] == label_start(b)[1]);
                assert(label_start(a)[2] == label_start(b)[2]);
            },
        }
    }
}

/// Of two complaints about different thoughts, one is always reported ahead
/// of the other.
proof fn lemma_heard_first_total(a: (Thought, usize), b: (Thought, usize))
    requires
        a.0 != b.0,
    ensures
        heard_first(a, b) || heard_first(b, a),
{
    different_thoughts_go_by_different_names(a.0, b.0);
    lex_less_is_total(thought_label(a.0), thought_label(b.0));
}

/// No thought comes up twice in `said`.
pub open spec fn each_once(said: Seq<(Thought, usize)>) -> bool {
    forall|i: int, j: int| 0 <= i < j < said.len() ==> (#[trigger] said[i]).0 != (#[trigger] said[j]).0
}

/// Two reports of the same complaints, each once and each in report order,
/// are the same report.
proof fn lemma_one_report_order(s1: Seq<(Thought, usize)>, s2: Seq<(Thought, usize)>)
    requires
        each_once(s1),
        each_once(s2),
        in_report_order(s1),
        in_report_order(s2),
        forall|x: (Thought, usize)| s1.contains(x) <==> s2.contains(x),
    ensures
        s1 == s2,
    decreases s1.len(),
{
    if s1.len() == 0 {
        if s2.len() > 0 {
            assert(s2.contains(s2[0]));
        }
        assert(s1 =~= s2);
    } else {
        assert(s1.contains(s1[0]));
        let j = choose|j: int| 0 <= j < s2.len() && s2[j] == s1[0];
        assert(s2.contains(s2[0]));
        let i = choose|i: int| 0 <= i < s1.len() && s1[i] == s2[0];
        if j > 0 {
            // s2 has its head ahead of s1's, and s1 has s2's head behind its own.
            assert(!heard_first(s2[j], s2[0]));
            assert(s2[0].0 != s2[j].0);
            lemma_heard_first_total(s2[0], s2[j]);
            assert(i > 0);
            assert(!heard_first(s1[i], s1[0]));
            lemma_heard_first_orders(s1[0], s1[i], s1[0]);
        }
        assert(s1[0] == s2[0]);
        let (t1, t2) = (s1.drop_first(), s2.drop_first());
        assert forall|x: (Thought, usize)| t1.contains(x) <==> t2.contains(x) by {
            if t1.contains(x) {
                let k = choose|k: int| 0 <= k < t1.len() && t1[k] == x;
                assert(s1[k + 1] == x);
                assert(s1.contains(x));
                let m = choose|m: int| 0 <= m < s2.len() && s2[m] == x;
                if m == 0 {
                    assert(s1[0].0 == s1[k + 1].0);
                }
                assert(t2[m - 1] == x);
            }
            if t2.contains(x) {
                let k = choose|k: int| 0 <= k < t2.len() && t2[k] == x;
                assert(s2[k + 1] == x);
                assert(s2.contains(x));
                let m = choose|m: int| 0 <= m < s1.len() && s1[m] == x;
                if m == 0 {
                    assert(s2[0].0 == s2[k + 1].0);
                }
                assert(t1[m - 1] == x);
            }
        }
        assert forall|a: int, b: int| 0 <= a < b < t1.len() implies (#[trigger] t1[a]).0 != (#[trigger] t1[b]).0 by {
            assert(t1[a] == s1[a + 1] && t1[b] == s1[b + 1]);
        }
        assert forall|a: int, b: int| 0 <= a < b < t2.len() implies (#[trigger] t2[a]).0 != (#[trigger] t2[b]).0 by {
            assert(t2[a] == s2[a + 1] && t2[b] == s2[b + 1]);
        }
        assert forall|a: int, b: int| 0 <= a < b < t1.len() implies !heard_first(#[trigger] t1[b], #[trigger] t1[a]) by {
            assert(t1[a] == s1[a + 1] && t1[b] == s1[b + 1]);
        }
        assert forall|a: int, b: int| 0 <= a < b < t2.len() implies !heard_first(#[trigger] t2[b], #[trigger] t2[a]) by {
            assert(t2[a] == s2[a + 1] && t2[b] == s2[b + 1]);
        }
        lemma_one_report_order(t1, t2);
        assert(s1 =~= seq![s1[0]] + t1);
        assert(s2 =~= seq![s2[0]] + t2);
    }
}

/// The same crowd always reports the same complaints in the same order:
/// there is only one count of `thoughts` in report order, so what the crowd
/// says depends on what it thinks and on nothing else.
pub proof fn the_same_crowd_always_says_the_same(
    thoughts: Seq<Thought>,
    one: Seq<(Thought, usize)>,
    other: Seq<(Thought, usize)>,
)
    requires
        tallied(thoughts, one),
        in_report_order(one),
        tallied(thoughts, other),
        in_report_order(other),
    ensures
        one == other,
{
    assert forall|x: (Thought, usize)| one.contains(x) <==> other.contains(x) by {
        if one.contains(x) {
            let k = choose|k: int| 0 <= k < one.len() && one[k] == x;
            assert(complains(one[k].0) && times(thoughts, one[k].0) > 0);
            let m = choose|m: int| 0 <= m < other.len() && (#[trigger] other[m]).0 == x.0;
            assert(other[m] == x);
        }
        if other.contains(x) {
            let k = choose|k: int| 0 <= k < other.len() && other[k] == x;
            assert(complains(other[k].0) && times(thoughts, other[k].0) > 0);
            let m = choose|m: int| 0 <= m < one.len() && (#[trigger] one[m]).0 == x.0;
            assert(one[m] == x);
        }
    }
    lemma_one_report_order(one, other);
}

} // verus!
