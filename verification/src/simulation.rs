//! Tri-state signals, signal environments, and the propagation capability.
//!
//! A `Signals` environment maps signal names to tri-state values. It is
//! threaded by value through propagation: each netlist entity merges its own
//! outputs into the environment it received and hands the result on.

use vstd::pervasive::VecAdditionalExecFns;
use vstd::prelude::*;

verus! {

/// Tri-state value of one signal. `Unknown` is both the default for an
/// undeclared signal and the value returned when a name is queried but absent
/// from the environment.
#[derive(Debug, PartialEq, Eq, Structural, Clone, Copy)]
pub enum SignalState {
    High,
    Low,
    Unknown,
}

/// What an environment yields for a name: the bound state, or `Unknown` when
/// the name is absent. Total by construction; querying never fails.
pub open spec fn spec_get(env: Map<Seq<char>, SignalState>, name: Seq<char>) -> SignalState {
    if env.dom().contains(name) {
        env[name]
    } else {
        SignalState::Unknown
    }
}

/// A named tri-state signal.
#[derive(Debug, PartialEq, Clone)]
pub struct Signal {
    name: String,
    state: SignalState,
}

impl Signal {
    /// The signal's name, as a sequence of characters.
    pub closed spec fn name_spec(&self) -> Seq<char> {
        self.name@
    }

    /// The signal's current state.
    pub closed spec fn state_spec(&self) -> SignalState {
        self.state
    }

    /// A fresh signal starts out `Unknown`.
    pub fn new(name: &str) -> (r: Signal)
        ensures
            r.name_spec() == name@,
            r.state_spec() == SignalState::Unknown,
    {
        Signal { name: name.to_owned(), state: SignalState::Unknown }
    }

    pub fn set_low(&mut self)
        ensures
            final(self).name_spec() == old(self).name_spec(),
            final(self).state_spec() == SignalState::Low,
    {
        self.state = SignalState::Low;
    }

    pub fn set_high(&mut self)
        ensures
            final(self).name_spec() == old(self).name_spec(),
            final(self).state_spec() == SignalState::High,
    {
        self.state = SignalState::High;
    }
}

/// Character-exact string equality.
fn str_eq(a: &str, b: &str) -> (r: bool)
    ensures
        r == (a@ == b@),
{
    let na = a.unicode_len();
    let nb = b.unicode_len();
    if na != nb {
        return false;
    }
    let mut i: usize = 0;
    while i < na
        invariant
            i <= na,
            na == a@.len(),
            na == b@.len(),
            forall|j: int| 0 <= j < i ==> a@[j] == b@[j],
        decreases na - i,
    {
        if a.get_char(i) != b.get_char(i) {
            return false;
        }
        i += 1;
    }
    proof {
        assert(a@ =~= b@);
    }
    true
}

/// The environment denoted by a sequence of signals, later entries winning.
spec fn env_of(s: Seq<Signal>) -> Map<Seq<char>, SignalState>
    decreases s.len(),
{
    if s.len() == 0 {
        Map::empty()
    } else {
        env_of(s.drop_last()).insert(s.last().name_spec(), s.last().state_spec())
    }
}

/// Names are pairwise distinct within the sequence.
spec fn names_unique(s: Seq<Signal>) -> bool {
    forall|i: int, j: int|
        0 <= i < j < s.len() ==> s[i].name_spec() != s[j].name_spec()
}

proof fn lemma_env_of_dom(s: Seq<Signal>, name: Seq<char>)
    ensures
        env_of(s).dom().contains(name) <==> exists|i: int|
            0 <= i < s.len() && s[i].name_spec() == name,
    decreases s.len(),
{
    if s.len() > 0 {
        lemma_env_of_dom(s.drop_last(), name);
        if env_of(s).dom().contains(name) && s.last().name_spec() != name {
            let i = choose|i: int| 0 <= i < s.drop_last().len() && s.drop_last()[i].name_spec() == name;
            assert(s[i].name_spec() == name);
        }
        if exists|i: int| 0 <= i < s.len() && s[i].name_spec() == name {
            let i = choose|i: int| 0 <= i < s.len() && s[i].name_spec() == name;
            if i < s.len() - 1 {
                assert(s.drop_last()[i].name_spec() == name);
            }
        }
    }
}

proof fn lemma_env_of_get(s: Seq<Signal>, i: int)
    requires
        names_unique(s),
        0 <= i < s.len(),
    ensures
        env_of(s).dom().contains(s[i].name_spec()),
        env_of(s)[s[i].name_spec()] == s[i].state_spec(),
    decreases s.len(),
{
    if i == s.len() - 1 {
    } else {
        assert(names_unique(s.drop_last()));
        assert(s.drop_last()[i] == s[i]);
        lemma_env_of_get(s.drop_last(), i);
        assert(s[i].name_spec() != s.last().name_spec());
    }
}

/// A mapping from signal name to signal, at most one signal per name.
#[derive(Debug, PartialEq, Clone)]
pub struct Signals {
    signals: Vec<Signal>,
}

impl View for Signals {
    type V = Map<Seq<char>, SignalState>;

    closed spec fn view(&self) -> Map<Seq<char>, SignalState> {
        env_of(self.signals@)
    }
}

impl Signals {
    /// Well-formedness: at most one entry per name.
    pub closed spec fn wf(&self) -> bool {
        names_unique(self.signals@)
    }

    /// The empty environment.
    pub fn new() -> (r: Signals)
        ensures
            r.wf(),
            r@ == Map::<Seq<char>, SignalState>::empty(),
    {
        Signals { signals: Vec::new() }
    }

    /// Inserts a signal, overwriting any signal already bound to its name.
    pub fn add_signal(&mut self, signal: Signal)
        requires
            old(self).wf(),
        ensures
            final(self).wf(),
            final(self)@ == old(self)@.insert(signal.name_spec(), signal.state_spec()),
    {
        let n = self.signals.len();
        let mut i: usize = 0;
        while i < n
            invariant
                i <= n,
                n == self.signals@.len(),
                names_unique(self.signals@),
                self.signals@ == old(self).signals@,
                forall|j: int| 0 <= j < i ==> self.signals@[j].name_spec() != signal.name_spec(),
            decreases n - i,
        {
            if str_eq(self.signals[i].name.as_str(), signal.name.as_str()) {
                proof {
                    lemma_env_update(self.signals@, i as int, signal);
                }
                self.signals.set(i, signal);
                return;
            }
            i += 1;
        }
        proof {
            lemma_env_push(self.signals@, signal);
        }
        self.signals.push(signal);
    }

    /// Merges `other` into `self`: names present in both take `other`'s value
    /// ("last writer wins"); names only in `other` are inserted.
    pub fn update_with(&mut self, other: Signals)
        requires
            old(self).wf(),
            other.wf(),
        ensures
            final(self).wf(),
            final(self)@ == old(self)@.union_prefer_right(other@),
    {
        let mut rest = other;
        loop
            invariant
                self.wf(),
                names_unique(rest.signals@),
                self@.union_prefer_right(env_of(rest.signals@))
                    == old(self)@.union_prefer_right(other@),
            ensures
                self.wf(),
                self@ == old(self)@.union_prefer_right(other@),
            decreases rest.signals@.len(),
        {
            let ghost prev = rest.signals@;
            match rest.signals.pop() {
                Some(sig) => {
                    proof {
                        assert(prev.drop_last() =~= rest.signals@);
                        assert(names_unique(rest.signals@));
                        lemma_env_of_dom(rest.signals@, sig.name_spec());
                        assert(!env_of(rest.signals@).dom().contains(sig.name_spec())) by {
                            if exists|i: int|
                                0 <= i < rest.signals@.len()
                                    && rest.signals@[i].name_spec() == sig.name_spec() {
                                let i = choose|i: int|
                                    0 <= i < rest.signals@.len()
                                        && rest.signals@[i].name_spec() == sig.name_spec();
                                assert(prev[i].name_spec() == prev[prev.len() - 1].name_spec());
                            }
                        }
                        lemma_union_insert(self@, env_of(rest.signals@), sig.name_spec(), sig.state_spec());
                    }
                    self.add_signal(sig);
                }
                None => {
                    proof {
                        assert(env_of(rest.signals@) =~= Map::<Seq<char>, SignalState>::empty());
                        assert(self@.union_prefer_right(env_of(rest.signals@)) =~= self@);
                    }
                    break;
                }
            }
        }
    }

    /// Queries a name; absent names yield `Unknown`, never an error.
    pub fn get(&self, name: &str) -> (r: SignalState)
        requires
            self.wf(),
        ensures
            r == spec_get(self@, name@),
    {
        let n = self.signals.len();
        let mut i: usize = 0;
        while i < n
            invariant
                i <= n,
                n == self.signals@.len(),
                self.wf(),
                forall|j: int| 0 <= j < i ==> self.signals@[j].name_spec() != name@,
            decreases n - i,
        {
            if str_eq(self.signals[i].name.as_str(), name) {
                proof {
                    lemma_env_of_get(self.signals@, i as int);
                }
                return self.signals[i].state;
            }
            i += 1;
        }
        proof {
            lemma_env_of_dom(self.signals@, name@);
        }
        SignalState::Unknown
    }

    /// The signals held, in insertion order; each entry is bound in the
    /// environment, each bound name appears exactly once.
    pub fn iter(&self) -> (r: &[Signal])
        requires
            self.wf(),
        ensures
            forall|i: int| 0 <= i < r@.len() ==> self@.contains_pair(
                #[trigger] r@[i].name_spec(),
                r@[i].state_spec(),
            ),
            forall|i: int, j: int| 0 <= i < j < r@.len() ==> r@[i].name_spec() != r@[j].name_spec(),
            forall|n: Seq<char>| self@.dom().contains(n) ==> exists|i: int|
                0 <= i < r@.len() && r@[i].name_spec() == n,
    {
        proof {
            assert forall|i: int| 0 <= i < self.signals@.len() implies self@.contains_pair(
                #[trigger] self.signals@[i].name_spec(),
                self.signals@[i].state_spec(),
            ) by {
                lemma_env_of_get(self.signals@, i);
            }
            assert forall|n: Seq<char>| self@.dom().contains(n) implies exists|i: int|
                0 <= i < self.signals@.len() && self.signals@[i].name_spec() == n by {
                lemma_env_of_dom(self.signals@, n);
            }
        }
        self.signals.as_slice()
    }
}

proof fn lemma_env_update(s: Seq<Signal>, i: int, sig: Signal)
    requires
        names_unique(s),
        0 <= i < s.len(),
        s[i].name_spec() == sig.name_spec(),
    ensures
        names_unique(s.update(i, sig)),
        env_of(s.update(i, sig)) == env_of(s).insert(sig.name_spec(), sig.state_spec()),
    decreases s.len(),
{
    let u = s.update(i, sig);
    assert forall|p: int, q: int| 0 <= p < q < u.len() implies u[p].name_spec() != u[q].name_spec() by {
        assert(s[p].name_spec() != s[q].name_spec());
    }
    if i == s.len() - 1 {
        assert(u.drop_last() =~= s.drop_last());
        assert(env_of(u) =~= env_of(s).insert(sig.name_spec(), sig.state_spec()));
    } else {
        assert(names_unique(s.drop_last()));
        assert(u.drop_last() =~= s.drop_last().update(i, sig));
        assert(s.drop_last()[i] == s[i]);
        lemma_env_update(s.drop_last(), i, sig);
        assert(s.last().name_spec() != sig.name_spec());
        assert(u.last() == s.last());
        assert(env_of(u) =~= env_of(s).insert(sig.name_spec(), sig.state_spec()));
    }
}

proof fn lemma_env_push(s: Seq<Signal>, sig: Signal)
    requires
        names_unique(s),
        forall|j: int| 0 <= j < s.len() ==> s[j].name_spec() != sig.name_spec(),
    ensures
        names_unique(s.push(sig)),
        env_of(s.push(sig)) == env_of(s).insert(sig.name_spec(), sig.state_spec()),
{
    assert(s.push(sig).drop_last() =~= s);
    assert(s.push(sig).last() == sig);
}

proof fn lemma_union_insert(
    m1: Map<Seq<char>, SignalState>,
    m2: Map<Seq<char>, SignalState>,
    name: Seq<char>,
    state: SignalState,
)
    requires
        !m2.dom().contains(name),
    ensures
        m1.insert(name, state).union_prefer_right(m2)
            == m1.union_prefer_right(m2.insert(name, state)),
{
    assert(m1.insert(name, state).union_prefer_right(m2)
        =~= m1.union_prefer_right(m2.insert(name, state)));
}

/// A builder accumulating name/state bindings into a `Signals` environment.
pub struct SignalsBuilder {
    signals: Signals,
}

impl View for SignalsBuilder {
    type V = Map<Seq<char>, SignalState>;

    closed spec fn view(&self) -> Map<Seq<char>, SignalState> {
        self.signals@
    }
}

impl SignalsBuilder {
    pub closed spec fn wf(&self) -> bool {
        self.signals.wf()
    }

    pub fn new() -> (r: SignalsBuilder)
        ensures
            r.wf(),
            r@ == Map::<Seq<char>, SignalState>::empty(),
    {
        SignalsBuilder { signals: Signals::new() }
    }

    /// Binds `name` to `state`, overwriting any earlier binding of `name`.
    pub fn add_signal(self, name: &str, state: SignalState) -> (r: SignalsBuilder)
        requires
            self.wf(),
        ensures
            r.wf(),
            r@ == self@.insert(name@, state),
    {
        let mut signals = self.signals;
        let mut signal = Signal::new(name);
        match state {
            SignalState::High => signal.set_high(),
            SignalState::Low => signal.set_low(),
            SignalState::Unknown => {}
        }
        signals.add_signal(signal);
        SignalsBuilder { signals }
    }

    pub fn build(self) -> (r: Signals)
        requires
            self.wf(),
        ensures
            r.wf(),
            r@ == self@,
    {
        self.signals
    }
}

/// The propagation capability shared by gates, models, and netlists: given a
/// signal environment, produce the environment extended with everything the
/// entity (and, recursively, its children) computed.
pub trait Simulable {
    /// The mathematical meaning of `stim` on an environment.
    spec fn spec_stim(&self, env: Map<Seq<char>, SignalState>) -> Map<Seq<char>, SignalState>;

    /// Propagates bound inputs through this entity, merging its outputs into
    /// the given environment. Total: missing input names resolve to `Unknown`.
    fn stim(&self, signals: Signals) -> (r: Signals)
        requires
            signals.wf(),
        ensures
            r.wf(),
            r@ == self.spec_stim(signals@),
    ;
}

} // verus!
