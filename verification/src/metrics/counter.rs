//! Counters, alone and in families keyed by labels.

use vstd::prelude::*;

verus! {

/// The labels of one member of a family, as name and value pairs.
pub type Labels = Seq<(Seq<char>, Seq<char>)>;

/// The labels held in `labels`, as plain values.
pub open spec fn labels_view(labels: Seq<(String, String)>) -> Labels {
    Seq::new(labels.len(), |i: int| (labels[i].0@, labels[i].1@))
}

/// The value after one more event; the counter starts over when it is full.
pub open spec fn spec_inc(value: u64) -> u64 {
    if value < u64::MAX {
        (value + 1) as u64
    } else {
        0
    }
}

/// A counter of events.
pub struct Counter {
    value: u64,
}

impl Counter {
    /// The number of events counted.
    pub closed spec fn view(&self) -> u64 {
        self.value
    }

    /// A counter at zero.
    pub fn new() -> (counter: Counter)
        ensures
            counter@ == 0,
    {
        Counter { value: 0 }
    }

    /// Counts one event.
    pub fn inc(&mut self)
        ensures
            final(self)@ == spec_inc(old(self)@),
    {
        self.value = self.value.wrapping_add(1);
    }

    /// The number of events counted.
    pub fn get(&self) -> (value: u64)
        ensures
            value == self@,
    {
        self.value
    }
}

/// Whether two label lists hold the same names and values in the same order.
pub fn labels_equal(a: &Vec<(String, String)>, b: &Vec<(String, String)>) -> (eq: bool)
    ensures
        eq == (labels_view(a@) == labels_view(b@)),
{
    if a.len() != b.len() {
        proof {
            assert(labels_view(a@).len() != labels_view(b@).len());
        }
        return false;
    }
    let mut i: usize = 0;
    while i < a.len()
        invariant
            a@.len() == b@.len(),
            i <= a@.len(),
            forall|k: int| 0 <= k < i ==> labels_view(a@)[k] == labels_view(b@)[k],
        decreases a@.len() - i,
    {
        if !(a[i].0 == b[i].0 && a[i].1 == b[i].1) {
            proof {
                assert(labels_view(a@)[i as int] != labels_view(b@)[i as int]);
            }
            return false;
        }
        i += 1;
    }
    proof {
        assert(labels_view(a@) =~= labels_view(b@));
    }
    true
}

/// The count that the first of the first `upto` members with labels
/// `labels` stands at; 0 if no member has them.
pub open spec fn spec_family_count(members: Seq<(Vec<(String, String)>, Counter)>, labels: Labels, upto: int) -> u64
    decreases upto,
{
    if upto <= 0 {
        0
    } else if exists|k: int| 0 <= k < upto - 1 && labels_view(members[k].0@) == labels {
        spec_family_count(members, labels, upto - 1)
    } else if labels_view(members[upto - 1].0@) == labels {
        members[upto - 1].1@
    } else {
        0
    }
}

/// A family of counters: one counter for every list of labels in use.
pub struct Family {
    members: Vec<(Vec<(String, String)>, Counter)>,
}

impl Family {
    /// The count under `labels`; 0 for labels never counted under.
    pub closed spec fn count(&self, labels: Labels) -> u64 {
        spec_family_count(self.members@, labels, self.members@.len() as int)
    }

    /// A family without members.
    pub fn new() -> (family: Family)
        ensures
            forall|labels: Labels| family.count(labels) == 0,
    {
        Family { members: Vec::new() }
    }

    /// The count under `labels`.
    pub fn get(&self, labels: &Vec<(String, String)>) -> (value: u64)
        ensures
            value == self.count(labels_view(labels@)),
    {
        let n = self.members.len();
        let mut i: usize = 0;
        while i < n
            invariant
                n == self.members@.len(),
                i <= n,
                forall|k: int| 0 <= k < i ==> labels_view(self.members@[k].0@) != labels_view(labels@),
            decreases n - i,
        {
            if labels_equal(&self.members[i].0, labels) {
                proof {
                    lemma_family_count_found(self.members@, labels_view(labels@), i as int, n as int);
                }
                return self.members[i].1.get();
            }
            i += 1;
        }
        proof {
            lemma_family_count_absent(self.members@, labels_view(labels@), n as int);
        }
        0
    }

    /// Counts one event under `labels`. A counter is made for labels that
    /// are new to the family.
    pub fn inc(&mut self, labels: Vec<(String, String)>)
        ensures
            final(self).count(labels_view(labels@)) == spec_inc(old(self).count(labels_view(labels@))),
            forall|other: Labels|
                other != labels_view(labels@) ==> final(self).count(other) == old(self).count(other),
    {
        let n = self.members.len();
        let mut i: usize = 0;
        while i < n
            invariant
                *self == *old(self),
                n == self.members@.len(),
                i <= n,
                forall|k: int| 0 <= k < i ==> labels_view(self.members@[k].0@) != labels_view(labels@),
            decreases n - i,
        {
            if labels_equal(&self.members[i].0, &labels) {
                self.members[i].1.inc();
                proof {
                    let before = old(self).members@;
                    let after = self.members@;
                    lemma_family_count_found(before, labels_view(labels@), i as int, n as int);
                    lemma_family_count_found(after, labels_view(labels@), i as int, n as int);
                    assert forall|other: Labels| other != labels_view(labels@) implies self.count(other)
                        == old(self).count(other) by {
                        lemma_family_count_other(before, after, other, i as int, n as int);
                    }
                }
                return ;
            }
            i += 1;
        }
        let mut counter = Counter::new();
        counter.inc();
        let ghost key = labels_view(labels@);
        self.members.push((labels, counter));
        proof {
            let before = old(self).members@;
            let after = self.members@;
            lemma_family_count_absent(before, key, n as int);
            lemma_family_count_found(after, key, n as int, n + 1);
            assert forall|other: Labels| other != key implies self.count(other) == old(self).count(
                other,
            ) by {
                lemma_family_count_prefix(before, after, other, n as int);
                if exists|k: int| 0 <= k < n && labels_view(after[k].0@) == other {
                } else {
                    assert forall|k: int| 0 <= k < n implies labels_view(before[k].0@) != other by {
                        assert(before[k] == after[k]);
                    }
                    lemma_family_count_absent(before, other, n as int);
                }
            }
        }
    }
}

proof fn lemma_family_count_absent(members: Seq<(Vec<(String, String)>, Counter)>, labels: Labels, upto: int)
    requires
        0 <= upto <= members.len(),
        forall|k: int| 0 <= k < upto ==> labels_view(members[k].0@) != labels,
    ensures
        spec_family_count(members, labels, upto) == 0,
    decreases upto,
{
    if upto > 0 {
        lemma_family_count_absent(members, labels, upto - 1);
    }
}

proof fn lemma_family_count_found(
    members: Seq<(Vec<(String, String)>, Counter)>,
    labels: Labels,
    at: int,
    upto: int,
)
    requires
        0 <= at < upto <= members.len(),
        labels_view(members[at].0@) == labels,
        forall|k: int| 0 <= k < at ==> labels_view(members[k].0@) != labels,
    ensures
        spec_family_count(members, labels, upto) == members[at].1@,
    decreases upto,
{
    if upto - 1 > at {
        assert(0 <= at < upto - 1 && labels_view(members[at].0@) == labels);
        lemma_family_count_found(members, labels, at, upto - 1);
    }
}

proof fn lemma_family_count_prefix(
    a: Seq<(Vec<(String, String)>, Counter)>,
    b: Seq<(Vec<(String, String)>, Counter)>,
    labels: Labels,
    upto: int,
)
    requires
        0 <= upto <= a.len(),
        upto <= b.len(),
        forall|k: int| 0 <= k < upto ==> a[k] == b[k],
    ensures
        spec_family_count(a, labels, upto) == spec_family_count(b, labels, upto),
    decreases upto,
{
    if upto > 0 {
        lemma_family_count_prefix(a, b, labels, upto - 1);
        if exists|k: int| 0 <= k < upto - 1 && labels_view(a[k].0@) == labels {
            let k = choose|k: int| 0 <= k < upto - 1 && labels_view(a[k].0@) == labels;
            assert(labels_view(b[k].0@) == labels);
        }
        if exists|k: int| 0 <= k < upto - 1 && labels_view(b[k].0@) == labels {
            let k = choose|k: int| 0 <= k < upto - 1 && labels_view(b[k].0@) == labels;
            assert(labels_view(a[k].0@) == labels);
        }
    }
}

proof fn lemma_family_count_other(
    a: Seq<(Vec<(String, String)>, Counter)>,
    b: Seq<(Vec<(String, String)>, Counter)>,
    labels: Labels,
    at: int,
    upto: int,
)
    requires
        0 <= at < a.len(),
        a.len() == b.len(),
        0 <= upto <= a.len(),
        labels_view(a[at].0@) != labels,
        forall|k: int| 0 <= k < a.len() ==> a[k].0 == b[k].0,
        forall|k: int| 0 <= k < a.len() && k != at ==> a[k] == b[k],
    ensures
        spec_family_count(a, labels, upto) == spec_family_count(b, labels, upto),
    decreases upto,
{
    if upto > 0 {
        lemma_family_count_other(a, b, labels, at, upto - 1);
        if exists|k: int| 0 <= k < upto - 1 && labels_view(a[k].0@) == labels {
            let k = choose|k: int| 0 <= k < upto - 1 && labels_view(a[k].0@) == labels;
            assert(labels_view(b[k].0@) == labels);
        }
        if exists|k: int| 0 <= k < upto - 1 && labels_view(b[k].0@) == labels {
            let k = choose|k: int| 0 <= k < upto - 1 && labels_view(b[k].0@) == labels;
            assert(labels_view(a[k].0@) == labels);
        }
    }
}

} // verus!
