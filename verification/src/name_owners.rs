//! The name-ownership registry: which caller identity currently owns which
//! well-known bus name.
//!
//! The registry is fed, in stream order, with the ownership-change events the
//! bus publishes, and answers the synchronous question "does this identity
//! own one of these names". The polling of the event stream itself is bus
//! glue outside this crate; the glue drains the already-buffered events and
//! hands them here, both on demand before a query and from its periodic
//! background task. Enforcement can be disabled at construction time, in
//! which case every query passes and the glue never needs to drain.
//!
//! The registry never stores an ownerless entry: a name with no owner is
//! simply absent.

use vstd::prelude::*;

use crate::ids::{Identity, WellKnownName};

verus! {

/// One ownership-change notification from the bus, in stream order: the
/// well-known name and its new owner, `None` when ownership was released.
#[derive(Clone, Copy, Debug)]
pub struct OwnershipEvent {
    pub name: WellKnownName,
    pub new_owner: Option<Identity>,
}

/// One registry entry: a currently owned name and its owner.
#[derive(Clone, Copy, Debug)]
struct NameRecord {
    name: WellKnownName,
    owner: Identity,
}

/// No two records carry the same name.
spec fn record_names_unique(s: Seq<NameRecord>) -> bool {
    forall|p: int, q: int| 0 <= p < q < s.len() ==> s[p].name != s[q].name
}

/// Some record of `s` carries `n`.
spec fn has_name(s: Seq<NameRecord>, n: WellKnownName) -> bool {
    exists|i: int| 0 <= i < s.len() && s[i].name == n
}

/// The owner `s` records for `n`, if any.
spec fn owner_at(s: Seq<NameRecord>, n: WellKnownName) -> Option<Identity> {
    if has_name(s, n) {
        let i = choose|i: int| 0 <= i < s.len() && s[i].name == n;
        Some(s[i].owner)
    } else {
        None
    }
}

/// With unique names, the record at index `i` is the one `owner_at` speaks
/// of.
proof fn lemma_record_at_index(s: Seq<NameRecord>, i: int)
    requires
        record_names_unique(s),
        0 <= i < s.len(),
    ensures
        has_name(s, s[i].name),
        owner_at(s, s[i].name) == Some(s[i].owner),
{
    let n = s[i].name;
    assert(has_name(s, n));
    let j = choose|j: int| 0 <= j < s.len() && s[j].name == n;
    if j < i {
        assert(s[j].name != s[i].name);
    } else if i < j {
        assert(s[i].name != s[j].name);
    }
}

/// Removing the record at index `i` removes exactly the ownership of the
/// name it carried.
proof fn lemma_remove_record(s: Seq<NameRecord>, i: int)
    requires
        record_names_unique(s),
        0 <= i < s.len(),
    ensures
        record_names_unique(s.remove(i)),
        owner_at(s.remove(i), s[i].name) == None::<Identity>,
        forall|m: WellKnownName| m != s[i].name ==> owner_at(s.remove(i), m) == owner_at(s, m),
{
    let t = s.remove(i);
    let n0 = s[i].name;
    assert(t.len() == s.len() - 1);
    assert(forall|k: int| 0 <= k < i ==> t[k] == s[k]);
    assert(forall|k: int| i <= k < t.len() ==> t[k] == s[k + 1]);
    assert forall|k: int| 0 <= k < t.len() implies t[k].name != n0 by {
        if k < i {
            assert(s[k].name != s[i].name);
        } else {
            assert(s[i].name != s[k + 1].name);
        }
    }
    assert forall|m: WellKnownName| m != n0 implies owner_at(t, m) == owner_at(s, m) by {
        if has_name(s, m) {
            let j = choose|j: int| 0 <= j < s.len() && s[j].name == m;
            let j2: int = if j < i {
                j
            } else {
                j - 1
            };
            assert(t[j2] == s[j]);
            lemma_record_at_index(s, j);
            lemma_record_at_index(t, j2);
        } else {
            if has_name(t, m) {
                let k = choose|k: int| 0 <= k < t.len() && t[k].name == m;
                if k < i {
                    assert(s[k].name == m);
                } else {
                    assert(s[k + 1].name == m);
                }
                assert(false);
            }
        }
    }
}

/// Appending a record for an absent name records exactly that ownership.
proof fn lemma_push_record(s: Seq<NameRecord>, e: NameRecord)
    requires
        record_names_unique(s),
        !has_name(s, e.name),
    ensures
        record_names_unique(s.push(e)),
        owner_at(s.push(e), e.name) == Some(e.owner),
        forall|m: WellKnownName| m != e.name ==> owner_at(s.push(e), m) == owner_at(s, m),
{
    let t = s.push(e);
    assert(forall|k: int| 0 <= k < s.len() ==> t[k] == s[k]);
    assert(t[s.len() as int] == e);
    assert forall|p: int, q: int| 0 <= p < q < t.len() implies t[p].name != t[q].name by {
        if q < s.len() {
            assert(s[p].name != s[q].name);
        } else {
            if t[p].name == e.name {
                assert(has_name(s, e.name));
            }
        }
    }
    lemma_record_at_index(t, s.len() as int);
    assert forall|m: WellKnownName| m != e.name implies owner_at(t, m) == owner_at(s, m) by {
        if has_name(s, m) {
            let j = choose|j: int| 0 <= j < s.len() && s[j].name == m;
            assert(t[j].name == m);
            lemma_record_at_index(s, j);
            lemma_record_at_index(t, j);
        } else {
            if has_name(t, m) {
                let k = choose|k: int| 0 <= k < t.len() && t[k].name == m;
                if k < s.len() {
                    assert(s[k].name == m);
                }
                assert(false);
            }
        }
    }
}

/// The owner a name ends up with after a sequence of ownership-change
/// events is applied, in order, on top of a base state: the last event for
/// the name decides, and a name no event touches keeps its base owner.
pub open spec fn owner_after(
    evs: Seq<OwnershipEvent>,
    n: WellKnownName,
    base: Option<Identity>,
) -> Option<Identity>
    decreases evs.len(),
{
    if evs.len() == 0 {
        base
    } else if evs.last().name == n {
        evs.last().new_owner
    } else {
        owner_after(evs.drop_last(), n, base)
    }
}

/// The name-ownership registry: the currently owned names with their
/// owners, and whether enforcement is active for this process.
#[derive(Debug)]
pub struct NameOwners {
    records: Vec<NameRecord>,
    enforce: bool,
}

impl NameOwners {
    /// Well-formed: each name is recorded at most once.
    pub closed spec fn wf(self) -> bool {
        record_names_unique(self.records@)
    }

    /// The identity currently recorded as owning `n`, if any.
    pub closed spec fn spec_owner(self, n: WellKnownName) -> Option<Identity> {
        owner_at(self.records@, n)
    }

    /// Whether ownership enforcement is active.
    pub closed spec fn spec_enforce(self) -> bool {
        self.enforce
    }

    /// Whether `check_owner` passes: with enforcement disabled every query
    /// passes; otherwise the identity must own at least one of the allowed
    /// names per the events processed so far.
    pub open spec fn spec_check_owner(self, id: Identity, allowed: Seq<WellKnownName>) -> bool {
        !self.spec_enforce() || exists|i: int|
            0 <= i < allowed.len() && self.spec_owner(#[trigger] allowed[i]) == Some(id)
    }

    /// A fresh registry: nothing owned yet. The `enforce` flag comes from
    /// the process configuration at construction time; with it off, the
    /// registry is a permissive no-op and nothing ever needs to be drained
    /// into it.
    pub fn new(enforce: bool) -> (r: NameOwners)
        ensures
            r.wf(),
            r.spec_enforce() == enforce,
            forall|n: WellKnownName| #[trigger] r.spec_owner(n) == None::<Identity>,
    {
        NameOwners { records: Vec::new(), enforce }
    }

    /// Whether ownership enforcement is active; with it off, the caller may
    /// skip scheduling any draining work.
    pub fn enforce(&self) -> (r: bool)
        ensures
            r == self.spec_enforce(),
    {
        self.enforce
    }

    /// The index of the record for `n`, if one exists.
    fn find_record(&self, n: WellKnownName) -> (r: Option<usize>)
        ensures
            match r {
                Some(i) => 0 <= i < self.records@.len() && self.records@[i as int].name == n,
                None => !has_name(self.records@, n),
            },
    {
        let mut i: usize = 0;
        while i < self.records.len()
            invariant
                i <= self.records@.len(),
                forall|j: int| 0 <= j < i ==> self.records@[j].name != n,
            decreases self.records@.len() - i,
        {
            if self.records[i].name == n {
                return Some(i);
            }
            i = i + 1;
        }
        None
    }

    /// Apply one ownership-change event: a present new owner is recorded
    /// (inserting or overwriting), an absent one removes the record. Every
    /// other name keeps its owner.
    pub fn apply_event(&mut self, ev: OwnershipEvent)
        requires
            old(self).wf(),
        ensures
            final(self).wf(),
            final(self).spec_enforce() == old(self).spec_enforce(),
            final(self).spec_owner(ev.name) == ev.new_owner,
            forall|m: WellKnownName| m != ev.name ==> #[trigger] final(self).spec_owner(m) == old(
                self,
            ).spec_owner(m),
    {
        let found = self.find_record(ev.name);
        match found {
            Some(i) => {
                proof {
                    lemma_at_then_remove(self.records@, i as int);
                }
                let _ = self.records.remove(i);
            },
            None => {},
        }
        match ev.new_owner {
            Some(owner) => {
                proof {
                    lemma_push_record(self.records@, NameRecord { name: ev.name, owner });
                }
                self.records.push(NameRecord { name: ev.name, owner });
            },
            None => {},
        }
    }

    /// Apply a batch of drained ownership-change events, in stream order.
    pub fn apply_events(&mut self, events: &Vec<OwnershipEvent>)
        requires
            old(self).wf(),
        ensures
            final(self).wf(),
            final(self).spec_enforce() == old(self).spec_enforce(),
            forall|n: WellKnownName| #[trigger] final(self).spec_owner(n) == owner_after(
                events@,
                n,
                old(self).spec_owner(n),
            ),
    {
        let mut i: usize = 0;
        while i < events.len()
            invariant
                i <= events@.len(),
                self.wf(),
                self.spec_enforce() == old(self).spec_enforce(),
                forall|n: WellKnownName| #[trigger] self.spec_owner(n) == owner_after(
                    events@.take(i as int),
                    n,
                    old(self).spec_owner(n),
                ),
            decreases events@.len() - i,
        {
            let ghost pre = *self;
            self.apply_event(events[i]);
            proof {
                let taken = events@.take(i as int + 1);
                assert(taken.drop_last() =~= events@.take(i as int));
                assert(taken.last() == events@[i as int]);
                assert forall|n: WellKnownName| #[trigger] self.spec_owner(n) == owner_after(
                    taken,
                    n,
                    old(self).spec_owner(n),
                ) by {
                    if n != events@[i as int].name {
                        assert(self.spec_owner(n) == pre.spec_owner(n));
                    }
                }
            }
            i = i + 1;
        }
        proof {
            assert(events@.take(events@.len() as int) =~= events@);
        }
    }

    /// Check whether `id` owns at least one of the names in `allowed`,
    /// according to the events processed so far; with enforcement disabled
    /// the check always passes, whatever the registry holds.
    pub fn check_owner(&self, id: Identity, allowed: &Vec<WellKnownName>) -> (r: bool)
        requires
            self.wf(),
        ensures
            r == self.spec_check_owner(id, allowed@),
            !self.spec_enforce() ==> r,
    {
        if !self.enforce {
            return true;
        }
        let mut i: usize = 0;
        while i < allowed.len()
            invariant
                i <= allowed@.len(),
                self.wf(),
                forall|j: int|
                    0 <= j < i ==> self.spec_owner(#[trigger] allowed@[j]) != Some(id),
            decreases allowed@.len() - i,
        {
            match self.find_record(allowed[i]) {
                Some(k) => {
                    proof {
                        lemma_record_at_index(self.records@, k as int);
                    }
                    if self.records[k].owner == id {
                        return true;
                    }
                },
                None => {},
            }
            i = i + 1;
        }
        false
    }
}

/// Helper: the record at a found index both names the owner and can be
/// removed with every other name framed.
proof fn lemma_at_then_remove(s: Seq<NameRecord>, i: int)
    requires
        record_names_unique(s),
        0 <= i < s.len(),
    ensures
        record_names_unique(s.remove(i)),
        !has_name(s.remove(i), s[i].name),
        forall|m: WellKnownName| m != s[i].name ==> owner_at(s.remove(i), m) == owner_at(s, m),
{
    lemma_remove_record(s, i);
    if has_name(s.remove(i), s[i].name) {
        assert(owner_at(s.remove(i), s[i].name) is Some);
    }
}

/// Law: the last ownership-change event for a name decides. After events
/// that assign a name to one identity, reassign it to another, and finally
/// release it, the name has no owner, and neither identity passes an
/// ownership check for it.
pub proof fn lemma_release_supersedes_owners(
    pre: NameOwners,
    post: NameOwners,
    n: WellKnownName,
    u1: Identity,
    u2: Identity,
    evs: Seq<OwnershipEvent>,
)
    requires
        evs == seq![
            (OwnershipEvent { name: n, new_owner: Some(u1) }),
            (OwnershipEvent { name: n, new_owner: Some(u2) }),
            (OwnershipEvent { name: n, new_owner: None }),
        ],
        forall|m: WellKnownName| #[trigger] post.spec_owner(m) == owner_after(
            evs,
            m,
            pre.spec_owner(m),
        ),
        post.spec_enforce(),
    ensures
        post.spec_owner(n) == None::<Identity>,
        !post.spec_check_owner(u1, seq![n]),
        !post.spec_check_owner(u2, seq![n]),
{
    assert(evs.last().name == n);
    assert(post.spec_owner(n) == None::<Identity>);
    assert forall|i: int| 0 <= i < seq![n].len() implies seq![n][i] == n by {
    }
}

} // verus!
