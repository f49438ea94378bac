//! The depth first walk of a dependency graph, in mathematical terms.

use crate::models::ServiceStatus;
use vstd::prelude::*;

verus! {

/// What a dependency graph holds: for each registered service what it depends on, and
/// the last known status of each service that has one.
pub struct Graph {
    pub nodes: Map<Seq<char>, Seq<Seq<char>>>,
    pub statuses: Map<Seq<char>, ServiceStatus>,
}

/// A service with what it depends on below it.
pub struct Tree {
    pub name: Seq<char>,
    pub status: ServiceStatus,
    pub children: Seq<Tree>,
}

/// The first time that a walk meets a service, and on which level.
pub struct Visit {
    pub name: Seq<char>,
    pub level: nat,
}

/// What a walk over some services yields: a tree for each of them, and the visits in
/// their order.
pub struct Walk {
    pub trees: Seq<Tree>,
    pub visits: Seq<Visit>,
}

/// The services that a walk visits.
pub open spec fn visited(visits: Seq<Visit>) -> Set<Seq<char>> {
    Set::new(
        |name: Seq<char>|
            exists|i: int| 0 <= i < visits.len() && #[trigger] visits[i].name == name,
    )
}

/// The greater of two levels.
pub open spec fn deeper(a: nat, b: nat) -> nat {
    if a >= b {
        a
    } else {
        b
    }
}

/// The level on which a walk visits a service, or 0 where it does not visit it.
pub open spec fn level_of(visits: Seq<Visit>, name: Seq<char>) -> nat
    decreases visits.len(),
{
    if visits.len() == 0 {
        0
    } else {
        deeper(
            level_of(visits.drop_last(), name),
            if visits.last().name == name {
                visits.last().level
            } else {
                0
            },
        )
    }
}

/// A single visit is a visit of one service.
pub proof fn lemma_visited_one(visit: Visit)
    ensures
        visited(seq![visit]) == set![visit.name],
{
    assert(seq![visit][0] == visit);
    assert(visited(seq![visit]) =~= set![visit.name]);
}

/// Two walks one after the other visit what each of them visits.
pub proof fn lemma_visited_both(first: Seq<Visit>, second: Seq<Visit>)
    ensures
        visited(first + second) == visited(first).union(visited(second)),
{
    let both = first + second;
    assert forall|name: Seq<char>|
        visited(first).contains(name) || visited(second).contains(name) implies #[trigger] visited(
        both,
    ).contains(name) by {
        if visited(first).contains(name) {
            let i = choose|i: int| 0 <= i < first.len() && #[trigger] first[i].name == name;
            assert(both[i].name == name);
        } else {
            let i = choose|i: int| 0 <= i < second.len() && #[trigger] second[i].name == name;
            assert(both[first.len() + i].name == name);
        }
    }
    assert forall|name: Seq<char>| #[trigger] visited(both).contains(name) implies visited(
        first,
    ).contains(name) || visited(second).contains(name) by {
        let i = choose|i: int| 0 <= i < both.len() && #[trigger] both[i].name == name;
        if i < first.len() {
            assert(first[i].name == name);
        } else {
            assert(second[i - first.len()].name == name);
        }
    }
    assert(visited(both) =~= visited(first).union(visited(second)));
}

/// A service is met on the deepest level on which two walks meet it.
pub proof fn lemma_level_both(first: Seq<Visit>, second: Seq<Visit>, name: Seq<char>)
    ensures
        level_of(first + second, name) == deeper(level_of(first, name), level_of(second, name)),
    decreases second.len(),
{
    if second.len() == 0 {
        assert(first + second =~= first);
    } else {
        assert((first + second).drop_last() =~= first + second.drop_last());
        lemma_level_both(first, second.drop_last(), name);
    }
}

/// A single visit meets one service, on its level.
pub proof fn lemma_level_one(visit: Visit, name: Seq<char>)
    ensures
        level_of(seq![visit], name) == if visit.name == name {
            visit.level
        } else {
            0
        },
{
    reveal_with_fuel(level_of, 2);
    assert(seq![visit].drop_last() =~= Seq::empty());
}

impl Graph {
    /// What a service depends on: nothing, if it is not registered.
    pub open spec fn dependencies(self, name: Seq<char>) -> Seq<Seq<char>> {
        if self.nodes.contains_key(name) {
            self.nodes[name]
        } else {
            Seq::empty()
        }
    }

    /// The last known status of a service.
    pub open spec fn status(self, name: Seq<char>) -> ServiceStatus {
        if self.statuses.contains_key(name) {
            self.statuses[name]
        } else {
            ServiceStatus::Unknown
        }
    }

    /// How many registered services are not in `seen`.
    pub open spec fn unseen(self, seen: Set<Seq<char>>) -> nat {
        self.nodes.dom().difference(seen).len()
    }

    /// The walk over `names`, one after the other. A service outside `seen` is visited on
    /// `level`, then what it depends on is walked one level deeper. A service in `seen`, or
    /// one that was visited before, gives a tree with nothing below it.
    pub open spec fn walk(self, names: Seq<Seq<char>>, level: nat, seen: Set<Seq<char>>) -> Walk
        decreases self.unseen(seen), names.len(),
        when self.nodes.dom().finite()
        via Self::walk_decreases
    {
        if names.len() == 0 {
            Walk { trees: Seq::empty(), visits: Seq::empty() }
        } else {
            let name = names.first();
            let below = if seen.contains(name) {
                Walk { trees: Seq::empty(), visits: Seq::empty() }
            } else {
                self.walk(self.dependencies(name), level + 1, seen.insert(name))
            };
            let visits = if seen.contains(name) {
                Seq::empty()
            } else {
                seq![Visit { name, level }] + below.visits
            };
            let rest = self.walk(names.drop_first(), level, seen.union(visited(visits)));
            Walk {
                trees: seq![Tree { name, status: self.status(name), children: below.trees }]
                    + rest.trees,
                visits: visits + rest.visits,
            }
        }
    }

    /// The tree of what a service depends on.
    pub open spec fn tree(self, root: Seq<char>) -> Tree {
        self.walk(seq![root], 1, Set::empty()).trees[0]
    }

    /// Whether some registered service depends on this one.
    pub open spec fn has_parent(self, name: Seq<char>) -> bool {
        exists|parent: Seq<char>| #[trigger]
            self.nodes.contains_key(parent) && self.nodes[parent].contains(name)
    }

    /// A registered service that no registered service depends on.
    pub open spec fn is_root(self, name: Seq<char>) -> bool {
        self.nodes.contains_key(name) && !self.has_parent(name)
    }

    /// The level on which the walk from `root` meets a service, 0 where it does not.
    pub open spec fn level_below(self, root: Seq<char>, name: Seq<char>) -> nat {
        level_of(self.walk(seq![root], 1, Set::empty()).visits, name)
    }

    /// The depth of a service is the deepest level on which the walk from a root meets it,
    /// and 0 where none does.
    pub open spec fn is_depth(self, name: Seq<char>, depth: nat) -> bool {
        &&& forall|root: Seq<char>|
            self.is_root(root) ==> #[trigger] self.level_below(root, name) <= depth
        &&& depth == 0 || exists|root: Seq<char>|
            self.is_root(root) && #[trigger] self.level_below(root, name) == depth
    }

    /// Whether nothing that a service depends on is in trouble itself.
    pub open spec fn unexplained(self, name: Seq<char>) -> bool {
        forall|i: int|
            0 <= i < self.dependencies(name).len() ==> !self.status(
                #[trigger] self.dependencies(name)[i],
            ).troubled()
    }

    /// Whether a service is in trouble and nothing that it depends on is.
    pub open spec fn is_root_cause(self, name: Seq<char>) -> bool {
        self.status(name).troubled() && self.unexplained(name)
    }

    #[via_fn]
    proof fn walk_decreases(self, names: Seq<Seq<char>>, level: nat, seen: Set<Seq<char>>) {
        if names.len() > 0 {
            let name = names.first();
            if !seen.contains(name) {
                self.lemma_unseen(seen, seen.insert(name));
                if self.nodes.contains_key(name) {
                    self.lemma_unseen_less(seen, name);
                }
            }
            assert forall|more: Set<Seq<char>>| #[trigger]
                self.unseen(seen.union(more)) <= self.unseen(seen) by {
                self.lemma_unseen(seen, seen.union(more));
            }
        }
    }

    /// The more services have been seen, the fewer have not.
    pub proof fn lemma_unseen(self, seen: Set<Seq<char>>, more: Set<Seq<char>>)
        requires
            self.nodes.dom().finite(),
            seen.subset_of(more),
        ensures
            self.unseen(more) <= self.unseen(seen),
    {
        let less = self.nodes.dom().difference(more);
        assert(less.subset_of(self.nodes.dom().difference(seen)));
        vstd::set_lib::lemma_len_subset(less, self.nodes.dom().difference(seen));
    }

    /// To see a registered service for the first time leaves fewer unseen.
    pub proof fn lemma_unseen_less(self, seen: Set<Seq<char>>, name: Seq<char>)
        requires
            self.nodes.dom().finite(),
            self.nodes.contains_key(name),
            !seen.contains(name),
        ensures
            self.unseen(seen.insert(name)) < self.unseen(seen),
    {
        let before = self.nodes.dom().difference(seen);
        assert(self.nodes.dom().difference(seen.insert(name)) =~= before.remove(name));
        assert(before.contains(name));
    }

    /// The walk over a single service.
    pub proof fn lemma_walk_one(self, name: Seq<char>, level: nat, seen: Set<Seq<char>>)
        requires
            self.nodes.dom().finite(),
        ensures
            ({
                let walk = self.walk(seq![name], level, seen);
                let below = self.walk(self.dependencies(name), level + 1, seen.insert(name));
                let status = self.status(name);
                if seen.contains(name) {
                    &&& walk.trees == seq![Tree { name, status, children: Seq::empty() }]
                    &&& walk.visits == Seq::<Visit>::empty()
                } else {
                    &&& walk.trees == seq![Tree { name, status, children: below.trees }]
                    &&& walk.visits == seq![Visit { name, level }] + below.visits
                }
            }),
    {
        let walk = self.walk(seq![name], level, seen);
        let below = self.walk(self.dependencies(name), level + 1, seen.insert(name));
        let visits = if seen.contains(name) {
            Seq::empty()
        } else {
            seq![Visit { name, level }] + below.visits
        };
        let rest = self.walk(Seq::empty(), level, seen.union(visited(visits)));
        assert(seq![name].drop_first() =~= Seq::<Seq<char>>::empty());
        assert(rest.trees =~= Seq::empty());
        assert(rest.visits =~= Seq::empty());
        assert(walk.visits =~= visits);
        let children = if seen.contains(name) {
            Seq::empty()
        } else {
            below.trees
        };
        assert(walk.trees =~= seq![Tree { name, status: self.status(name), children }]);
    }

    /// A walk over some services is the walk over the first of them, then that over the rest.
    pub proof fn lemma_walk_first(self, names: Seq<Seq<char>>, level: nat, seen: Set<Seq<char>>)
        requires
            self.nodes.dom().finite(),
            names.len() > 0,
        ensures
            ({
                let walk = self.walk(names, level, seen);
                let first = self.walk(seq![names.first()], level, seen);
                let rest = self.walk(
                    names.drop_first(),
                    level,
                    seen.union(visited(first.visits)),
                );
                &&& walk.trees == first.trees + rest.trees
                &&& walk.visits == first.visits + rest.visits
            }),
    {
        self.lemma_walk_one(names.first(), level, seen);
    }
}

} // verus!
