//! A set of ports, kept as one flag per port number.

use vstd::prelude::*;

verus! {

/// How many port numbers there are: 0 to 65535.
pub const PORT_NUMBERS: usize = 65536;

/// The ports of `ports` that are below `bound`, ascending, each once.
pub open spec fn ascending_below(ports: Set<u16>, bound: nat) -> Seq<u16>
    decreases bound,
{
    if bound == 0 {
        Seq::empty()
    } else {
        let port = (bound - 1) as u16;
        let lower = ascending_below(ports, (bound - 1) as nat);
        if ports.contains(port) {
            lower.push(port)
        } else {
            lower
        }
    }
}

/// The ports of `ports`, ascending, each once.
pub open spec fn ascending(ports: Set<u16>) -> Seq<u16> {
    ascending_below(ports, PORT_NUMBERS as nat)
}

/// Whether each item of `ports` is less than the one after it.
pub open spec fn strictly_ascending(ports: Seq<u16>) -> bool {
    forall|i: int, j: int| 0 <= i < j < ports.len() ==> ports[i] < ports[j]
}

/// `ascending_below(ports, bound)` is strictly ascending and holds exactly
/// the ports of `ports` below `bound`.
pub proof fn lemma_ascending_below(ports: Set<u16>, bound: nat)
    requires
        bound <= PORT_NUMBERS,
    ensures
        strictly_ascending(ascending_below(ports, bound)),
        forall|p: u16| #[trigger]
            ascending_below(ports, bound).contains(p) <==> (ports.contains(p) && p < bound),
    decreases bound,
{
    let all = ascending_below(ports, bound);
    if bound > 0 {
        let port = (bound - 1) as u16;
        let lower = ascending_below(ports, (bound - 1) as nat);
        lemma_ascending_below(ports, (bound - 1) as nat);
        if ports.contains(port) {
            assert forall|i: int, j: int| 0 <= i < j < all.len() implies all[i] < all[j] by {
                if j < lower.len() {
                    assert(lower[i] < lower[j]);
                } else {
                    assert(lower.contains(lower[i]));
                }
            }
            assert forall|p: u16| all.contains(p) <==> (ports.contains(p) && p < bound) by {
                if all.contains(p) {
                    let i = choose|i: int| 0 <= i < all.len() && all[i] == p;
                    if i < lower.len() {
                        assert(lower.contains(lower[i]));
                    }
                }
                if ports.contains(p) && p < bound {
                    if p == port {
                        assert(all[lower.len() as int] == p);
                    } else {
                        assert(lower.contains(p));
                        let i = choose|i: int| 0 <= i < lower.len() && lower[i] == p;
                        assert(all[i] == p);
                    }
                }
            }
        }
    }
}

/// The ascending listing of a set is strictly ascending, so nothing stands in
/// it twice, and it holds the ports of the set and no others.
pub proof fn lemma_ascending(ports: Set<u16>)
    ensures
        strictly_ascending(ascending(ports)),
        ascending(ports).no_duplicates(),
        forall|p: u16| ascending(ports).contains(p) <==> ports.contains(p),
        ascending(ports).to_set() == ports,
{
    lemma_ascending_below(ports, PORT_NUMBERS as nat);
    assert(ascending(ports).to_set() =~= ports);
}

/// A strictly ascending sequence is the ascending listing of its own items:
/// there is one way only to list a set of ports in ascending order.
pub proof fn lemma_ascending_unique(ports: Seq<u16>)
    requires
        strictly_ascending(ports),
    ensures
        ports == ascending(ports.to_set()),
{
    let other = ascending(ports.to_set());
    lemma_ascending(ports.to_set());
    lemma_same_items_same_listing(ports, other);
}

/// Two strictly ascending sequences with the same items are equal.
proof fn lemma_same_items_same_listing(a: Seq<u16>, b: Seq<u16>)
    requires
        strictly_ascending(a),
        strictly_ascending(b),
        a.to_set() == b.to_set(),
    ensures
        a == b,
    decreases a.len(),
{
    if a.len() == 0 {
        if b.len() > 0 {
            assert(b.to_set().contains(b[0]));
            assert(a.contains(b[0]));
        }
        assert(a =~= b);
    } else {
        let top = a.last();
        assert(a.to_set().contains(top));
        assert(b.contains(top));
        let k = choose|k: int| 0 <= k < b.len() && b[k] == top;
        if k < b.len() - 1 {
            let more = b.last();
            assert(b.to_set().contains(more));
            assert(a.contains(more));
            let i = choose|i: int| 0 <= i < a.len() && a[i] == more;
            assert(a[i] <= top);
        }
        assert(b.last() == top);
        let a0 = a.drop_last();
        let b0 = b.drop_last();
        assert forall|p: u16| a0.to_set().contains(p) <==> b0.to_set().contains(p) by {
            if a0.contains(p) {
                let i = choose|i: int| 0 <= i < a0.len() && a0[i] == p;
                assert(a[i] == p && p < top);
                assert(a.to_set().contains(p));
                assert(b.contains(p));
                let j = choose|j: int| 0 <= j < b.len() && b[j] == p;
                assert(b0[j] == p);
            }
            if b0.contains(p) {
                let j = choose|j: int| 0 <= j < b0.len() && b0[j] == p;
                assert(b[j] == p && p < top);
                assert(b.to_set().contains(p));
                assert(a.contains(p));
                let i = choose|i: int| 0 <= i < a.len() && a[i] == p;
                assert(a0[i] == p);
            }
        }
        assert(a0.to_set() =~= b0.to_set());
        lemma_same_items_same_listing(a0, b0);
        assert(a =~= a0.push(top));
        assert(b =~= b0.push(top));
    }
}

/// A set of ports with constant-time insertion and lookup.
pub struct PortSet {
    present: Vec<bool>,
}

impl View for PortSet {
    type V = Set<u16>;

    closed spec fn view(&self) -> Set<u16> {
        Set::new(|p: u16| p < self.present@.len() && self.present@[p as int])
    }
}

impl PortSet {
    /// Whether the set is well formed: it holds one flag for each port
    /// number. Every set made by `new` or `from_ports` is, and stays so.
    pub closed spec fn wf(&self) -> bool {
        self.present@.len() == PORT_NUMBERS
    }

    /// The empty set.
    pub fn new() -> (set: PortSet)
        ensures
            set.wf(),
            set@ == Set::<u16>::empty(),
    {
        let mut present: Vec<bool> = Vec::new();
        let mut n: usize = 0;
        while n < PORT_NUMBERS
            invariant
                n <= PORT_NUMBERS,
                present@.len() == n,
                forall|i: int| 0 <= i < n ==> !present@[i],
            decreases PORT_NUMBERS - n,
        {
            present.push(false);
            n = n + 1;
        }
        let set = PortSet { present };
        assert(set@ =~= Set::<u16>::empty());
        set
    }

    /// The set of the ports in `ports`.
    pub fn from_ports(ports: &Vec<u16>) -> (set: PortSet)
        ensures
            set.wf(),
            set@ == ports@.to_set(),
    {
        let mut set = PortSet::new();
        let mut i: usize = 0;
        while i < ports.len()
            invariant
                i <= ports.len(),
                set.wf(),
                set@ == ports@.take(i as int).to_set(),
            decreases ports.len() - i,
        {
            set.insert(ports[i]);
            proof {
                assert(ports@.take(i + 1) =~= ports@.take(i as int).push(ports@[i as int]));
                ports@.take(i as int).lemma_push_to_set_commute(ports@[i as int]);
            }
            i = i + 1;
        }
        assert(ports@.take(ports.len() as int) =~= ports@);
        set
    }

    /// Adds `port` to the set.
    pub fn insert(&mut self, port: u16)
        requires
            old(self).wf(),
        ensures
            final(self).wf(),
            final(self)@ == old(self)@.insert(port),
    {
        self.present.set(port as usize, true);
        assert(self@ =~= old(self)@.insert(port));
    }

    /// Whether `port` is in the set.
    pub fn contains(&self, port: u16) -> (found: bool)
        requires
            self.wf(),
        ensures
            found == self@.contains(port),
    {
        self.present[port as usize]
    }

    /// The ports of the set, ascending.
    pub fn to_ascending(&self) -> (ports: Vec<u16>)
        requires
            self.wf(),
        ensures
            ports@ == ascending(self@),
    {
        let mut ports: Vec<u16> = Vec::new();
        let mut n: usize = 0;
        while n < PORT_NUMBERS
            invariant
                n <= PORT_NUMBERS,
                self.present@.len() == PORT_NUMBERS,
                ports@ == ascending_below(self@, n as nat),
            decreases PORT_NUMBERS - n,
        {
            if self.present[n] {
                ports.push(n as u16);
            }
            n = n + 1;
        }
        ports
    }
}

} // verus!
