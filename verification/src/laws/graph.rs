//! What holds of a dependency graph whatever depends on what.

use crate::dependency;
use crate::models::{DependencyNode, RootCauseResult, ServiceStatus};
use crate::walk;
use crate::walk::{Graph, Tree, Visit};
use vstd::prelude::*;

verus! {

impl Graph {
    /// Whether each service on a path depends on the next one.
    pub open spec fn is_path(self, path: Seq<Seq<char>>) -> bool {
        &&& path.len() > 0
        &&& forall|i: int, j: int|
            0 <= i < j < path.len() && j == i + 1 ==> self.dependencies(
                #[trigger] path[i],
            ).contains(#[trigger] path[j])
    }

    /// Whether a service depends on another one, through any number of others, or is it.
    pub open spec fn reaches(self, from: Seq<char>, to: Seq<char>) -> bool {
        exists|path: Seq<Seq<char>>| #[trigger]
            self.is_path(path) && path.first() == from && path.last() == to
    }

    /// A path that starts one service earlier.
    proof fn lemma_longer_path(self, name: Seq<char>, path: Seq<Seq<char>>)
        requires
            self.is_path(path),
            self.dependencies(name).contains(path.first()),
        ensures
            self.is_path(seq![name] + path),
            (seq![name] + path).first() == name,
            (seq![name] + path).last() == path.last(),
    {
        let longer = seq![name] + path;
        assert forall|i: int, j: int|
            0 <= i < j < longer.len() && j == i + 1 implies self.dependencies(
            #[trigger] longer[i],
        ).contains(#[trigger] longer[j]) by {
            if i > 0 {
                assert(longer[i] == path[i - 1]);
                assert(longer[j] == path[j - 1]);
            }
        }
    }

    /// A walk visits only what it was not to skip. To each visit leads a path from one of the
    /// services that the walk starts from, and its length tells the level. It repeats no service
    /// and leads through none that the walk was to skip.
    proof fn lemma_visit_has_path(
        self,
        names: Seq<Seq<char>>,
        level: nat,
        seen: Set<Seq<char>>,
        k: int,
    ) -> (path: Seq<Seq<char>>)
        requires
            self.nodes.dom().finite(),
            0 <= k < self.walk(names, level, seen).visits.len(),
        ensures
            !seen.contains(self.walk(names, level, seen).visits[k].name),
            self.is_path(path),
            path.no_duplicates(),
            forall|i: int| 0 <= i < path.len() ==> !seen.contains(#[trigger] path[i]),
            names.contains(path.first()),
            path.last() == self.walk(names, level, seen).visits[k].name,
            path.len() + level == self.walk(names, level, seen).visits[k].level + 1,
        decreases self.unseen(seen), names.len(),
    {
        let visits = self.walk(names, level, seen).visits;
        let first = names.first();
        let one = self.walk(seq![first], level, seen);
        let later = names.drop_first();
        let between = seen.union(walk::visited(one.visits));
        self.lemma_walk_first(names, level, seen);
        self.lemma_walk_one(first, level, seen);
        assert(names[0] == first);
        if k < one.visits.len() {
            assert(visits[k] == one.visits[k]);
            if k == 0 {
                assert(self.is_path(seq![first]));
                seq![first]
            } else {
                self.lemma_fewer(first, seen);
                let path = self.lemma_visit_has_path(
                    self.dependencies(first),
                    level + 1,
                    seen.insert(first),
                    k - 1,
                );
                self.lemma_longer_path(first, path);
                lemma_longer_repeats_nothing(first, path, seen);
                seq![first] + path
            }
        } else {
            assert(visits[k] == self.walk(later, level, between).visits[k - one.visits.len()]);
            self.lemma_unseen(seen, between);
            let path = self.lemma_visit_has_path(later, level, between, k - one.visits.len());
            let i = choose|i: int| 0 <= i < later.len() && later[i] == path.first();
            assert(names[i + 1] == path.first());
            path
        }
    }

    /// To go on below a service leaves fewer services unseen, or nothing to walk.
    proof fn lemma_fewer(self, name: Seq<char>, seen: Set<Seq<char>>)
        requires
            self.nodes.dom().finite(),
            !seen.contains(name),
        ensures
            self.unseen(seen.insert(name)) < self.unseen(seen) || {
                &&& self.unseen(seen.insert(name)) == self.unseen(seen)
                &&& self.dependencies(name).len() == 0
            },
    {
        if self.nodes.contains_key(name) {
            self.lemma_unseen_less(seen, name);
        } else {
            assert(self.nodes.dom().difference(seen.insert(name)) =~= self.nodes.dom().difference(
                seen,
            ));
        }
    }

    /// A walk leaves out nothing: the services it starts from have been seen after it, and so
    /// has all that a service depends on that it visits.
    proof fn lemma_visits_closed(
        self,
        names: Seq<Seq<char>>,
        level: nat,
        seen: Set<Seq<char>>,
    )
        requires
            self.nodes.dom().finite(),
        ensures
            ({
                let after = seen.union(walk::visited(self.walk(names, level, seen).visits));
                &&& forall|name: Seq<char>| #[trigger] names.contains(name) ==> after.contains(name)
                &&& forall|name: Seq<char>, dependency: Seq<char>|
                    after.contains(name) && !seen.contains(name) && #[trigger] self.dependencies(
                        name,
                    ).contains(dependency) ==> after.contains(dependency)
            }),
        decreases self.unseen(seen), names.len(),
    {
        if names.len() > 0 {
            let first = names.first();
            let one = self.walk(seq![first], level, seen);
            let later = names.drop_first();
            let between = seen.union(walk::visited(one.visits));
            let rest = self.walk(later, level, between);
            let after = seen.union(walk::visited(self.walk(names, level, seen).visits));
            self.lemma_walk_first(names, level, seen);
            self.lemma_walk_one(first, level, seen);
            walk::lemma_visited_both(one.visits, rest.visits);
            self.lemma_unseen(seen, between);
            self.lemma_visits_closed(later, level, between);
            assert(after =~= between.union(walk::visited(rest.visits)));
            if !seen.contains(first) {
                let below = self.walk(self.dependencies(first), level + 1, seen.insert(first));
                let visit = Visit { name: first, level };
                walk::lemma_visited_one(visit);
                walk::lemma_visited_both(seq![visit], below.visits);
                self.lemma_fewer(first, seen);
                self.lemma_visits_closed(self.dependencies(first), level + 1, seen.insert(first));
                assert(between =~= seen.insert(first).union(walk::visited(below.visits)));
            }
            assert forall|name: Seq<char>| #[trigger] names.contains(name) implies after.contains(
                name,
            ) by {
                let i = choose|i: int| 0 <= i < names.len() && names[i] == name;
                if i > 0 {
                    assert(later[i - 1] == name);
                    assert(later.contains(name));
                }
            }
        }
    }

    /// What a path leads to is in every set that holds its start and all dependencies of what
    /// it holds.
    proof fn lemma_path_stays(self, path: Seq<Seq<char>>, all: Set<Seq<char>>)
        requires
            self.is_path(path),
            all.contains(path.first()),
            forall|name: Seq<char>, dependency: Seq<char>|
                all.contains(name) && #[trigger] self.dependencies(name).contains(dependency)
                    ==> all.contains(dependency),
        ensures
            all.contains(path.last()),
        decreases path.len(),
    {
        if path.len() > 1 {
            let shorter = path.drop_last();
            assert(forall|i: int| 0 <= i < shorter.len() ==> #[trigger] shorter[i] == path[i]);
            self.lemma_path_stays(shorter, all);
            assert(self.dependencies(path[path.len() - 2]).contains(path[path.len() - 1]));
        }
    }

    /// The walk from a service visits exactly the services that it reaches.
    pub proof fn law_walk_visits_what_is_reached(self, root: Seq<char>, name: Seq<char>)
        requires
            self.nodes.dom().finite(),
        ensures
            walk::visited(self.walk(seq![root], 1, Set::empty()).visits).contains(name)
                <==> self.reaches(root, name),
    {
        let all = walk::visited(self.walk(seq![root], 1, Set::empty()).visits);
        if all.contains(name) {
            let visits = self.walk(seq![root], 1, Set::empty()).visits;
            let k = choose|k: int| 0 <= k < visits.len() && #[trigger] visits[k].name == name;
            let path = self.lemma_visit_has_path(seq![root], 1, Set::empty(), k);
            assert(path.first() == root);
        }
        if self.reaches(root, name) {
            let path = choose|path: Seq<Seq<char>>| #[trigger]
                self.is_path(path) && path.first() == root && path.last() == name;
            self.lemma_visits_closed(seq![root], 1, Set::empty());
            assert(Set::<Seq<char>>::empty().union(all) =~= all);
            assert(seq![root].contains(root)) by {
                assert(seq![root][0] == root);
            }
            self.lemma_path_stays(path, all);
        }
    }

    /// A walk visits no service twice.
    pub proof fn law_walk_visits_once(
        self,
        names: Seq<Seq<char>>,
        level: nat,
        seen: Set<Seq<char>>,
        i: int,
        j: int,
    )
        requires
            self.nodes.dom().finite(),
            0 <= i < j < self.walk(names, level, seen).visits.len(),
        ensures
            self.walk(names, level, seen).visits[i].name != self.walk(
                names,
                level,
                seen,
            ).visits[j].name,
        decreases self.unseen(seen), names.len(),
    {
        let visits = self.walk(names, level, seen).visits;
        let first = names.first();
        let one = self.walk(seq![first], level, seen);
        let later = names.drop_first();
        let between = seen.union(walk::visited(one.visits));
        self.lemma_walk_first(names, level, seen);
        self.lemma_walk_one(first, level, seen);
        let edge = one.visits.len() as int;
        if j < edge {
            assert(visits[i] == one.visits[i] && visits[j] == one.visits[j]);
            if i == 0 {
                self.lemma_visit_has_path(
                    self.dependencies(first),
                    level + 1,
                    seen.insert(first),
                    j - 1,
                );
            } else {
                self.lemma_fewer(first, seen);
                self.law_walk_visits_once(
                    self.dependencies(first),
                    level + 1,
                    seen.insert(first),
                    i - 1,
                    j - 1,
                );
            }
        } else {
            let rest = self.walk(later, level, between);
            assert(visits[j] == rest.visits[j - edge]);
            if i < edge {
                assert(visits[i] == one.visits[i]);
                assert(between.contains(visits[i].name));
                self.lemma_visit_has_path(later, level, between, j - edge);
            } else {
                assert(visits[i] == rest.visits[i - edge]);
                self.lemma_unseen(seen, between);
                self.law_walk_visits_once(later, level, between, i - edge, j - edge);
            }
        }
    }

    /// The walk from a service meets what it reaches, and nothing else. The level on which it
    /// does is the length of a path to there that repeats no service.
    pub proof fn law_level_is_a_path_length(self, root: Seq<char>, name: Seq<char>)
        requires
            self.nodes.dom().finite(),
        ensures
            self.level_below(root, name) > 0 <==> self.reaches(root, name),
            self.level_below(root, name) > 0 ==> exists|path: Seq<Seq<char>>|
                {
                    &&& #[trigger] self.is_path(path)
                    &&& path.first() == root
                    &&& path.last() == name
                    &&& path.len() == self.level_below(root, name)
                    &&& path.no_duplicates()
                },
    {
        let visits = self.walk(seq![root], 1, Set::empty()).visits;
        self.law_walk_visits_what_is_reached(root, name);
        lemma_level_met(visits, name);
        if self.level_below(root, name) > 0 {
            let k = choose|k: int|
                0 <= k < visits.len() && #[trigger] visits[k].name == name && visits[k].level
                    == walk::level_of(visits, name);
            let path = self.lemma_visit_has_path(seq![root], 1, Set::empty(), k);
            assert(path.first() == root);
        }
        if self.reaches(root, name) {
            let k = choose|k: int| 0 <= k < visits.len() && #[trigger] visits[k].name == name;
            self.lemma_visit_has_path(seq![root], 1, Set::empty(), k);
        }
    }

    /// A service has one depth only.
    pub proof fn law_depth_is_unique(self, name: Seq<char>, depth: nat, other: nat)
        requires
            self.is_depth(name, depth),
            self.is_depth(name, other),
        ensures
            depth == other,
    {
    }

    /// Exactly the services that a root reaches have a depth other than 0, and their depth is
    /// the length of a path to there from a root that repeats no service.
    pub proof fn law_depth_is_below_a_root(self, name: Seq<char>, depth: nat)
        requires
            self.nodes.dom().finite(),
            self.is_depth(name, depth),
        ensures
            depth > 0 <==> exists|root: Seq<char>|
                self.is_root(root) && #[trigger] self.reaches(root, name),
            depth > 0 ==> exists|path: Seq<Seq<char>>|
                {
                    &&& #[trigger] self.is_path(path)
                    &&& self.is_root(path.first())
                    &&& path.last() == name
                    &&& path.len() == depth
                    &&& path.no_duplicates()
                },
    {
        if depth > 0 {
            let root = choose|root: Seq<char>|
                self.is_root(root) && #[trigger] self.level_below(root, name) == depth;
            self.law_level_is_a_path_length(root, name);
            assert(self.reaches(root, name));
        }
        if exists|root: Seq<char>| self.is_root(root) && #[trigger] self.reaches(root, name) {
            let root = choose|root: Seq<char>|
                self.is_root(root) && #[trigger] self.reaches(root, name);
            self.law_level_is_a_path_length(root, name);
        }
    }

    /// A root lies on the topmost level.
    pub proof fn law_root_has_depth_one(self, name: Seq<char>, depth: nat)
        requires
            self.nodes.dom().finite(),
            self.is_root(name),
            self.is_depth(name, depth),
        ensures
            depth == 1,
    {
        assert(self.is_path(seq![name]));
        assert(self.reaches(name, name));
        self.law_depth_is_below_a_root(name, depth);
        let path = choose|path: Seq<Seq<char>>|
            {
                &&& #[trigger] self.is_path(path)
                &&& self.is_root(path.first())
                &&& path.last() == name
                &&& path.len() == depth
            };
        if path.len() > 1 {
            let parent = path[path.len() - 2];
            assert(self.dependencies(parent).contains(path[path.len() - 1]));
            assert(self.nodes.contains_key(parent));
        }
    }

    /// Whether each service on a path depends on the next one, and all are in trouble.
    pub open spec fn is_trouble(self, path: Seq<Seq<char>>) -> bool {
        &&& self.is_path(path)
        &&& forall|i: int| 0 <= i < path.len() ==> self.status(#[trigger] path[i]).troubled()
    }

    /// From a service in trouble a path leads through services in trouble to a root cause, where
    /// there is no circle among the services in trouble below it: where no path through them
    /// comes back to a service.
    pub proof fn law_trouble_has_a_cause(self, name: Seq<char>)
        requires
            self.nodes.dom().finite(),
            self.status(name).troubled(),
            forall|path: Seq<Seq<char>>| #[trigger]
                self.is_trouble(path) && path.first() == name ==> path.no_duplicates(),
        ensures
            exists|path: Seq<Seq<char>>|
                {
                    &&& #[trigger] self.is_trouble(path)
                    &&& path.first() == name
                    &&& self.is_root_cause(path.last())
                },
    {
        assert(self.is_trouble(seq![name]));
        self.lemma_trouble_goes_on(seq![name]);
    }

    /// A path through services in trouble can be made longer until it gets to a root cause.
    proof fn lemma_trouble_goes_on(self, path: Seq<Seq<char>>)
        requires
            self.nodes.dom().finite(),
            self.is_trouble(path),
            forall|other: Seq<Seq<char>>| #[trigger]
                self.is_trouble(other) && other.first() == path.first() ==> other.no_duplicates(),
        ensures
            exists|other: Seq<Seq<char>>|
                {
                    &&& #[trigger] self.is_trouble(other)
                    &&& other.first() == path.first()
                    &&& self.is_root_cause(other.last())
                },
        decreases self.unseen(path.drop_last().to_set()),
    {
        let end = path.last();
        assert(path[path.len() - 1] == end);
        if !self.unexplained(end) {
            let i = choose|i: int|
                0 <= i < self.dependencies(end).len() && self.status(
                    #[trigger] self.dependencies(end)[i],
                ).troubled();
            let next = self.dependencies(end)[i];
            let longer = path.push(next);
            assert forall|i: int, j: int|
                0 <= i < j < longer.len() && j == i + 1 implies self.dependencies(
                #[trigger] longer[i],
            ).contains(#[trigger] longer[j]) by {
                assert(longer[i] == path[i]);
                if j < path.len() {
                    assert(longer[j] == path[j]);
                }
            }
            assert(self.is_trouble(longer));
            assert(path.no_duplicates());
            let passed = path.drop_last();
            assert(!passed.to_set().contains(end)) by {
                if passed.contains(end) {
                    let k = choose|k: int| 0 <= k < passed.len() && passed[k] == end;
                    assert(path[k] == path[path.len() - 1]);
                }
            }
            assert(longer.drop_last() =~= path);
            assert(path.to_set() =~= passed.to_set().insert(end)) by {
                assert forall|name: Seq<char>| #[trigger] path.contains(name) && name
                    != end implies passed.contains(name) by {
                    let k = choose|k: int| 0 <= k < path.len() && path[k] == name;
                    assert(passed[k] == name);
                }
                assert forall|name: Seq<char>| #[trigger] passed.contains(name) implies path.contains(
                    name,
                ) by {
                    let k = choose|k: int| 0 <= k < passed.len() && passed[k] == name;
                    assert(path[k] == name);
                }
            }
            self.lemma_unseen_less(passed.to_set(), end);
            self.lemma_trouble_goes_on(longer);
        }
    }

    /// Whether a tree tells the status of each service in it, and shows below each either
    /// nothing or what it depends on, in its order.
    pub open spec fn fits(self, tree: Tree) -> bool
        decreases tree,
    {
        &&& tree.status == self.status(tree.name)
        &&& tree.children.len() == 0 || shows_below(tree, self.dependencies(tree.name))
        &&& forall|i: int|
            0 <= i < tree.children.len() ==> self.fits(#[trigger] tree.children[i])
    }

    /// The trees of a walk are those of the services that it starts from. They fit the graph.
    proof fn lemma_trees_fit(
        self,
        names: Seq<Seq<char>>,
        level: nat,
        seen: Set<Seq<char>>,
    )
        requires
            self.nodes.dom().finite(),
        ensures
            self.walk(names, level, seen).trees.len() == names.len(),
            forall|i: int|
                0 <= i < names.len() ==> (#[trigger] self.walk(names, level, seen).trees[i]).name
                    == names[i],
            forall|i: int|
                0 <= i < names.len() ==> self.fits(
                    #[trigger] self.walk(names, level, seen).trees[i],
                ),
        decreases self.unseen(seen), names.len(),
    {
        if names.len() > 0 {
            let trees = self.walk(names, level, seen).trees;
            let first = names.first();
            let one = self.walk(seq![first], level, seen);
            let later = names.drop_first();
            let between = seen.union(walk::visited(one.visits));
            let rest = self.walk(later, level, between);
            self.lemma_walk_first(names, level, seen);
            self.lemma_walk_one(first, level, seen);
            self.lemma_unseen(seen, between);
            self.lemma_trees_fit(later, level, between);
            if !seen.contains(first) {
                self.lemma_fewer(first, seen);
                self.lemma_trees_fit(self.dependencies(first), level + 1, seen.insert(first));
            }
            assert(self.fits(one.trees[0]));
            assert forall|i: int| 0 <= i < names.len() implies (#[trigger] trees[i]).name
                == names[i] && self.fits(trees[i]) by {
                if i > 0 {
                    assert(trees[i] == rest.trees[i - 1]);
                } else {
                    assert(trees[0] == one.trees[0]);
                }
            }
        }
    }

    /// All services in the trees of a walk are reached from one it starts from.
    proof fn lemma_tree_reached(self, tree: Tree, name: Seq<char>)
        requires
            self.fits(tree),
            holds(tree, name),
        ensures
            self.reaches(tree.name, name),
        decreases tree,
    {
        if tree.name == name {
            assert(self.is_path(seq![name]));
        } else {
            let i = choose|i: int|
                0 <= i < tree.children.len() && holds(#[trigger] tree.children[i], name);
            let child = tree.children[i];
            self.lemma_tree_reached(child, name);
            assert(self.dependencies(tree.name)[i] == child.name);
            let path = choose|path: Seq<Seq<char>>| #[trigger]
                self.is_path(path) && path.first() == child.name && path.last() == name;
            self.lemma_longer_path(tree.name, path);
        }
    }

    /// Each service that a walk visits is spread out in one of its trees.
    proof fn lemma_visits_spread_out(
        self,
        names: Seq<Seq<char>>,
        level: nat,
        seen: Set<Seq<char>>,
        k: int,
    )
        requires
            self.nodes.dom().finite(),
            0 <= k < self.walk(names, level, seen).visits.len(),
        ensures
            ({
                let walk = self.walk(names, level, seen);
                exists|i: int|
                    0 <= i < names.len() && self.spreads_out(
                        #[trigger] walk.trees[i],
                        walk.visits[k].name,
                    )
            }),
        decreases self.unseen(seen), names.len(),
    {
        let visits = self.walk(names, level, seen).visits;
        let trees = self.walk(names, level, seen).trees;
        let first = names.first();
        let one = self.walk(seq![first], level, seen);
        let later = names.drop_first();
        let between = seen.union(walk::visited(one.visits));
        let rest = self.walk(later, level, between);
        self.lemma_walk_first(names, level, seen);
        self.lemma_walk_one(first, level, seen);
        let edge = one.visits.len() as int;
        if k < edge {
            assert(visits[k] == one.visits[k]);
            assert(trees[0] == one.trees[0]);
            let below = self.walk(self.dependencies(first), level + 1, seen.insert(first));
            if k == 0 {
                self.lemma_trees_fit(self.dependencies(first), level + 1, seen.insert(first));
                assert(shows_below(trees[0], self.dependencies(first)));
            } else {
                self.lemma_fewer(first, seen);
                self.lemma_visits_spread_out(
                    self.dependencies(first),
                    level + 1,
                    seen.insert(first),
                    k - 1,
                );
                self.lemma_trees_fit(self.dependencies(first), level + 1, seen.insert(first));
                let i = choose|i: int|
                    0 <= i < self.dependencies(first).len() && self.spreads_out(
                        #[trigger] below.trees[i],
                        visits[k].name,
                    );
                assert(trees[0].children[i] == below.trees[i]);
            }
            assert(self.spreads_out(trees[0], visits[k].name));
        } else {
            assert(visits[k] == rest.visits[k - edge]);
            self.lemma_unseen(seen, between);
            self.lemma_visits_spread_out(later, level, between, k - edge);
            self.lemma_trees_fit(later, level, between);
            let i = choose|i: int|
                0 <= i < later.len() && self.spreads_out(#[trigger] rest.trees[i], visits[k].name);
            assert(trees[i + 1] == rest.trees[i]);
        }
    }

    /// Whether a tree has a place where all is shown that a service depends on.
    pub open spec fn spreads_out(self, tree: Tree, name: Seq<char>) -> bool
        decreases tree,
    {
        ||| tree.name == name && shows_below(tree, self.dependencies(name))
        ||| exists|i: int|
            0 <= i < tree.children.len() && self.spreads_out(#[trigger] tree.children[i], name)
    }

    /// The tree of a service starts with it and fits the graph, with or without circles.
    pub proof fn law_tree_fits(self, root: Seq<char>)
        requires
            self.nodes.dom().finite(),
        ensures
            self.tree(root).name == root,
            self.fits(self.tree(root)),
            shows_below(self.tree(root), self.dependencies(root)),
    {
        self.lemma_trees_fit(seq![root], 1, Set::empty());
        self.lemma_walk_one(root, 1, Set::empty());
        self.lemma_trees_fit(self.dependencies(root), 2, Set::empty().insert(root));
        let walk = self.walk(seq![root], 1, Set::empty());
        assert(self.fits(walk.trees[0]));
        assert(walk.trees[0].name == root);
    }

    /// The tree of a service holds exactly the services that it reaches, and for each of them
    /// has a place where all is shown that it depends on.
    pub proof fn law_tree_holds_what_is_reached(self, root: Seq<char>, name: Seq<char>)
        requires
            self.nodes.dom().finite(),
        ensures
            holds(self.tree(root), name) <==> self.reaches(root, name),
            self.spreads_out(self.tree(root), name) <==> self.reaches(root, name),
    {
        let walk = self.walk(seq![root], 1, Set::empty());
        self.law_tree_fits(root);
        self.law_walk_visits_what_is_reached(root, name);
        if self.reaches(root, name) {
            let k = choose|k: int|
                0 <= k < walk.visits.len() && #[trigger] walk.visits[k].name == name;
            self.lemma_visits_spread_out(seq![root], 1, Set::empty(), k);
        }
        if self.spreads_out(self.tree(root), name) {
            self.lemma_spread_is_held(self.tree(root), name);
        }
        if holds(self.tree(root), name) {
            self.lemma_tree_reached(self.tree(root), name);
        }
    }

    /// In the tree of a service, read from the top down, all that a service depends on is shown
    /// below the first place of it, and nothing below the others. So the tree stays small where
    /// many services depend on the same one.
    pub proof fn law_tree_opens_first_place(self, root: Seq<char>, i: int)
        requires
            self.nodes.dom().finite(),
            0 <= i < preorder(seq![self.tree(root)]).len(),
        ensures
            ({
                let places = preorder(seq![self.tree(root)]);
                if appears_before(places, i) {
                    places[i].children.len() == 0
                } else {
                    shows_below(places[i], self.dependencies(places[i].name))
                }
            }),
    {
        self.lemma_opened(seq![root], 1, Set::empty());
        self.lemma_walk_one(root, 1, Set::empty());
        assert(self.walk(seq![root], 1, Set::empty()).trees =~= seq![self.tree(root)]);
    }

    /// The tree of a service has one place for the service, and one for each dependency of each
    /// service that it reaches.
    pub proof fn law_tree_size(self, root: Seq<char>, reached: Seq<Seq<char>>)
        requires
            self.nodes.dom().finite(),
            reached.no_duplicates(),
            forall|name: Seq<char>| #[trigger] reached.contains(name) <==> self.reaches(root, name),
        ensures
            preorder(seq![self.tree(root)]).len() == 1 + self.dependency_count(reached),
    {
        let walk = self.walk(seq![root], 1, Set::empty());
        let names = walk.visits.map_values(|visit: Visit| visit.name);
        self.lemma_size(seq![root], 1, Set::empty());
        self.lemma_walk_one(root, 1, Set::empty());
        assert(walk.trees =~= seq![self.tree(root)]);
        assert forall|i: int, j: int| 0 <= i < j < names.len() implies names[i] != names[j] by {
            self.law_walk_visits_once(seq![root], 1, Set::empty(), i, j);
        }
        assert forall|name: Seq<char>| #[trigger] names.contains(name) <==> reached.contains(
            name,
        ) by {
            self.law_walk_visits_what_is_reached(root, name);
            if names.contains(name) {
                let k = choose|k: int| 0 <= k < names.len() && names[k] == name;
                assert(walk.visits[k].name == name);
            }
            if reached.contains(name) {
                let k = choose|k: int|
                    0 <= k < walk.visits.len() && #[trigger] walk.visits[k].name == name;
                assert(names[k] == name);
            }
        }
        self.lemma_same_count(names, reached);
    }

    /// How many dependencies some services have together.
    pub open spec fn dependency_count(self, names: Seq<Seq<char>>) -> nat
        decreases names.len(),
    {
        if names.len() == 0 {
            0
        } else {
            self.dependencies(names[0]).len() + self.dependency_count(names.drop_first())
        }
    }

    /// The dependencies of some services and of others are those of all of them.
    proof fn lemma_count_both(self, first: Seq<Seq<char>>, second: Seq<Seq<char>>)
        ensures
            self.dependency_count(first + second) == self.dependency_count(first)
                + self.dependency_count(second),
        decreases first.len(),
    {
        if first.len() == 0 {
            assert(first + second =~= second);
        } else {
            assert((first + second).drop_first() =~= first.drop_first() + second);
            self.lemma_count_both(first.drop_first(), second);
        }
    }

    /// In which order services are counted makes no difference.
    proof fn lemma_same_count(self, first: Seq<Seq<char>>, second: Seq<Seq<char>>)
        requires
            first.no_duplicates(),
            second.no_duplicates(),
            forall|name: Seq<char>| #[trigger] first.contains(name) <==> second.contains(name),
        ensures
            self.dependency_count(first) == self.dependency_count(second),
        decreases first.len(),
    {
        if first.len() == 0 {
            if second.len() > 0 {
                assert(second.contains(second[0]));
                assert(first.contains(second[0]));
            }
        } else {
            let name = first[0];
            assert(first.contains(name));
            assert(second.contains(name));
            let k = choose|k: int| 0 <= k < second.len() && second[k] == name;
            let ahead = second.take(k);
            let behind = second.skip(k + 1);
            let others = ahead + behind;
            assert(second =~= ahead + (seq![name] + behind));
            self.lemma_count_both(ahead, seq![name] + behind);
            self.lemma_count_both(seq![name], behind);
            self.lemma_count_both(ahead, behind);
            reveal_with_fuel(Graph::dependency_count, 2);
            assert(seq![name].drop_first() =~= Seq::empty());
            let fewer = first.drop_first();
            assert forall|i: int, j: int| 0 <= i < j < fewer.len() implies fewer[i] != fewer[j] by {
                assert(fewer[i] == first[i + 1] && fewer[j] == first[j + 1]);
            }
            assert forall|i: int| 0 <= i < others.len() implies #[trigger] others[i] == second[if i
                < k {
                i
            } else {
                i + 1
            }] by {}
            assert forall|i: int, j: int| 0 <= i < j < others.len() implies others[i]
                != others[j] by {}
            assert forall|other: Seq<char>| #[trigger] fewer.contains(other) <==> others.contains(
                other,
            ) by {
                if fewer.contains(other) {
                    let i = choose|i: int| 0 <= i < fewer.len() && fewer[i] == other;
                    assert(first[i + 1] == other);
                    assert(first.contains(other));
                    let j = choose|j: int| 0 <= j < second.len() && second[j] == other;
                    assert(j != k);
                    assert(others[if j < k {
                        j
                    } else {
                        j - 1
                    }] == other);
                }
                if others.contains(other) {
                    let i = choose|i: int| 0 <= i < others.len() && others[i] == other;
                    let j = if i < k {
                        i
                    } else {
                        i + 1
                    };
                    assert(second[j] == other && j != k);
                    assert(second.contains(other));
                    assert(first.contains(other));
                    let at = choose|at: int| 0 <= at < first.len() && first[at] == other;
                    assert(at != 0);
                    assert(fewer[at - 1] == other);
                }
            }
            self.lemma_same_count(fewer, others);
        }
    }

    /// The trees of a walk have one place for each service that it starts from, and one for each
    /// dependency of each service that it visits.
    proof fn lemma_size(self, names: Seq<Seq<char>>, level: nat, seen: Set<Seq<char>>)
        requires
            self.nodes.dom().finite(),
        ensures
            preorder(self.walk(names, level, seen).trees).len() == names.len()
                + self.dependency_count(
                self.walk(names, level, seen).visits.map_values(|visit: Visit| visit.name),
            ),
        decreases self.unseen(seen), names.len(),
    {
        let name_of = |visit: Visit| visit.name;
        let visits = self.walk(names, level, seen).visits;
        if names.len() > 0 {
            let first = names.first();
            let one = self.walk(seq![first], level, seen);
            let later = names.drop_first();
            let between = seen.union(walk::visited(one.visits));
            let rest = self.walk(later, level, between);
            self.lemma_walk_first(names, level, seen);
            self.lemma_walk_one(first, level, seen);
            self.lemma_unseen(seen, between);
            self.lemma_size(later, level, between);
            lemma_preorder_both(one.trees, rest.trees);
            lemma_preorder_one(one.trees[0]);
            assert(one.trees =~= seq![one.trees[0]]);
            assert(visits.map_values(name_of) =~= one.visits.map_values(name_of)
                + rest.visits.map_values(name_of));
            self.lemma_count_both(
                one.visits.map_values(name_of),
                rest.visits.map_values(name_of),
            );
            if seen.contains(first) {
                assert(one.visits.map_values(name_of) =~= Seq::empty());
            } else {
                let below = self.walk(self.dependencies(first), level + 1, seen.insert(first));
                self.lemma_fewer(first, seen);
                self.lemma_size(self.dependencies(first), level + 1, seen.insert(first));
                assert(one.visits.map_values(name_of)[0] == first);
                assert(one.visits.map_values(name_of).drop_first() =~= below.visits.map_values(
                    name_of,
                ));
            }
        } else {
            assert(visits.map_values(name_of) =~= Seq::empty());
        }
    }

    /// Whether in some places, read one after the other, all is shown below a service the first
    /// time, unless it is to be skipped, and nothing otherwise.
    spec fn opened(self, places: Seq<Tree>, seen: Set<Seq<char>>) -> bool {
        forall|i: int|
            0 <= i < places.len() ==> if seen.contains((#[trigger] places[i]).name)
                || appears_before(places, i) {
                places[i].children.len() == 0
            } else {
                shows_below(places[i], self.dependencies(places[i].name))
            }
    }

    /// Places after which others come that skip what the first ones have shown.
    proof fn lemma_opened_both(
        self,
        first: Seq<Tree>,
        second: Seq<Tree>,
        seen: Set<Seq<char>>,
        between: Set<Seq<char>>,
    )
        requires
            self.opened(first, seen),
            self.opened(second, between),
            seen.subset_of(between),
            forall|i: int| 0 <= i < first.len() ==> between.contains((#[trigger] first[i]).name),
            forall|name: Seq<char>| #[trigger]
                between.contains(name) && !seen.contains(name) ==> exists|i: int|
                    0 <= i < first.len() && #[trigger] first[i].name == name,
        ensures
            self.opened(first + second, seen),
    {
        let both = first + second;
        let edge = first.len() as int;
        assert forall|i: int| 0 <= i < both.len() implies if seen.contains(
            (#[trigger] both[i]).name,
        ) || appears_before(both, i) {
            both[i].children.len() == 0
        } else {
            shows_below(both[i], self.dependencies(both[i].name))
        } by {
            if i < edge {
                assert(both[i] == first[i]);
                if appears_before(both, i) {
                    let j = choose|j: int| 0 <= j < i && #[trigger] both[j].name == both[i].name;
                    assert(first[j].name == first[i].name);
                }
                if appears_before(first, i) {
                    let j = choose|j: int| 0 <= j < i && #[trigger] first[j].name == first[i].name;
                    assert(both[j].name == both[i].name);
                }
            } else {
                let k = i - edge;
                assert(both[i] == second[k]);
                if appears_before(both, i) {
                    let j = choose|j: int| 0 <= j < i && #[trigger] both[j].name == both[i].name;
                    if j < edge {
                        assert(between.contains(first[j].name));
                    } else {
                        assert(second[j - edge].name == second[k].name);
                    }
                }
                if appears_before(second, k) {
                    let j = choose|j: int|
                        0 <= j < k && #[trigger] second[j].name == second[k].name;
                    assert(both[j + edge].name == both[i].name);
                }
                if between.contains(second[k].name) && !seen.contains(second[k].name) {
                    let j = choose|j: int|
                        0 <= j < first.len() && #[trigger] first[j].name == second[k].name;
                    assert(both[j].name == both[i].name);
                }
            }
        }
    }

    /// The trees of a walk show what a service depends on below the first place of it, and hold
    /// the services that it visits and some that it was to skip.
    proof fn lemma_opened(self, names: Seq<Seq<char>>, level: nat, seen: Set<Seq<char>>)
        requires
            self.nodes.dom().finite(),
        ensures
            ({
                let walk = self.walk(names, level, seen);
                let places = preorder(walk.trees);
                &&& self.opened(places, seen)
                &&& forall|i: int|
                    0 <= i < places.len() ==> seen.union(walk::visited(walk.visits)).contains(
                        (#[trigger] places[i]).name,
                    )
                &&& forall|name: Seq<char>| #[trigger]
                    walk::visited(walk.visits).contains(name) ==> exists|i: int|
                        0 <= i < places.len() && #[trigger] places[i].name == name
            }),
        decreases self.unseen(seen), names.len(),
    {
        if names.len() > 0 {
            let all = self.walk(names, level, seen);
            let places = preorder(all.trees);
            let first = names.first();
            let one = self.walk(seq![first], level, seen);
            let later = names.drop_first();
            let between = seen.union(walk::visited(one.visits));
            let rest = self.walk(later, level, between);
            self.lemma_walk_first(names, level, seen);
            self.lemma_walk_one(first, level, seen);
            self.lemma_unseen(seen, between);
            walk::lemma_visited_both(one.visits, rest.visits);
            self.lemma_opened(later, level, between);
            let top = one.trees[0];
            lemma_preorder_both(one.trees, rest.trees);
            lemma_preorder_one(top);
            assert(one.trees =~= seq![top]);
            let ahead = preorder(one.trees);
            if seen.contains(first) {
                assert(top.children =~= Seq::empty());
                assert(preorder(top.children) =~= Seq::empty());
                assert(ahead =~= seq![top]);
                assert(walk::visited(one.visits) =~= Set::empty());
            } else {
                let inside = seen.insert(first);
                let below = self.walk(self.dependencies(first), level + 1, inside);
                let visit = Visit { name: first, level };
                walk::lemma_visited_one(visit);
                walk::lemma_visited_both(seq![visit], below.visits);
                self.lemma_fewer(first, seen);
                self.lemma_trees_fit(self.dependencies(first), level + 1, inside);
                self.lemma_opened(self.dependencies(first), level + 1, inside);
                assert(shows_below(top, self.dependencies(first)));
                assert(self.opened(seq![top], seen)) by {
                    assert(!appears_before(seq![top], 0));
                }
                assert(seq![top][0].name == first);
                self.lemma_opened_both(seq![top], preorder(below.trees), seen, inside);
                assert(ahead == seq![top] + preorder(below.trees));
                assert forall|i: int| 0 <= i < ahead.len() implies between.contains(
                    (#[trigger] ahead[i]).name,
                ) by {
                    if i > 0 {
                        assert(ahead[i] == preorder(below.trees)[i - 1]);
                    }
                }
                assert forall|name: Seq<char>| #[trigger]
                    walk::visited(one.visits).contains(name) implies exists|i: int|
                    0 <= i < ahead.len() && #[trigger] ahead[i].name == name by {
                    if name == first {
                        assert(ahead[0].name == name);
                    } else {
                        let i = choose|i: int|
                            0 <= i < preorder(below.trees).len() && #[trigger] preorder(
                                below.trees,
                            )[i].name == name;
                        assert(ahead[i + 1].name == name);
                    }
                }
            }
            let behind = preorder(rest.trees);
            self.lemma_opened_both(ahead, behind, seen, between);
            assert(places == ahead + behind);
            assert forall|i: int| 0 <= i < places.len() implies seen.union(
                walk::visited(all.visits),
            ).contains((#[trigger] places[i]).name) by {
                if i < ahead.len() {
                    assert(places[i] == ahead[i]);
                } else {
                    assert(places[i] == behind[i - ahead.len()]);
                }
            }
            assert forall|name: Seq<char>| #[trigger]
                walk::visited(all.visits).contains(name) implies exists|i: int|
                0 <= i < places.len() && #[trigger] places[i].name == name by {
                if walk::visited(one.visits).contains(name) {
                    let i = choose|i: int| 0 <= i < ahead.len() && #[trigger] ahead[i].name == name;
                    assert(places[i].name == name);
                } else {
                    let i = choose|i: int|
                        0 <= i < behind.len() && #[trigger] behind[i].name == name;
                    assert(places[i + ahead.len()].name == name);
                }
            }
        }
    }

    /// What a service depends on is what it was registered with, and nothing where it was not. Its
    /// status is the one that was last noted, and unknown where none was.
    pub proof fn law_what_is_registered(self, name: Seq<char>)
        ensures
            self.nodes.contains_key(name) ==> self.dependencies(name) == self.nodes[name],
            !self.nodes.contains_key(name) ==> self.dependencies(name).len() == 0,
            self.statuses.contains_key(name) ==> self.status(name) == self.statuses[name],
            !self.statuses.contains_key(name) ==> self.status(name) == ServiceStatus::Unknown,
    {
    }

    /// A root is a service that is registered and in no list of dependencies.
    pub proof fn law_roots(self, name: Seq<char>)
        ensures
            self.is_root(name) <==> self.nodes.contains_key(name) && !(exists|
                parent: Seq<char>,
                i: int,
            |
                #![trigger self.nodes[parent][i]]
                self.nodes.contains_key(parent) && 0 <= i < self.nodes[parent].len()
                    && self.nodes[parent][i] == name),
    {
        if self.has_parent(name) {
            let parent = choose|parent: Seq<char>| #[trigger]
                self.nodes.contains_key(parent) && self.nodes[parent].contains(name);
            let i = choose|i: int|
                0 <= i < self.nodes[parent].len() && self.nodes[parent][i] == name;
            assert(self.nodes[parent][i] == name);
        }
        if exists|parent: Seq<char>, i: int|
            #![trigger self.nodes[parent][i]]
            self.nodes.contains_key(parent) && 0 <= i < self.nodes[parent].len()
                && self.nodes[parent][i] == name {
            let (parent, i) = choose|parent: Seq<char>, i: int|
                #![trigger self.nodes[parent][i]]
                self.nodes.contains_key(parent) && 0 <= i < self.nodes[parent].len()
                    && self.nodes[parent][i] == name;
            assert(self.nodes.contains_key(parent) && self.nodes[parent].contains(name));
        }
    }

    /// Nothing explains the trouble of a service where none of all its dependencies is unhealthy
    /// or degraded. It is a root cause where it is unhealthy or degraded itself too.
    pub proof fn law_root_cause(self, name: Seq<char>)
        ensures
            self.unexplained(name) <==> forall|i: int|
                0 <= i < self.dependencies(name).len() ==> {
                    let below = #[trigger] self.dependencies(name)[i];
                    &&& self.status(below) != ServiceStatus::Unhealthy
                    &&& self.status(below) != ServiceStatus::Degraded
                },
            self.is_root_cause(name) <==> self.unexplained(name) && (self.status(name)
                == ServiceStatus::Unhealthy || self.status(name) == ServiceStatus::Degraded),
    {
    }

    /// The root causes are listed: none of them depends directly on a service whose last known
    /// status is unhealthy or degraded, each is so itself and is told with its status, and every
    /// service of which both holds is listed, once. One that is listed ahead of another is deeper,
    /// or as deep and not less bad.
    pub proof fn law_root_causes_are_listed(
        self,
        causes: Seq<RootCauseResult>,
        name: Seq<char>,
        i: int,
        j: int,
    )
        requires
            dependency::shows_causes(self, causes),
        ensures
            0 <= i < causes.len() ==> {
                let service = causes[i].service@;
                &&& self.statuses.contains_key(service)
                &&& self.statuses[service] == causes[i].status
                &&& causes[i].status == ServiceStatus::Unhealthy || causes[i].status
                    == ServiceStatus::Degraded
                &&& forall|k: int|
                    self.nodes.contains_key(service) && 0 <= k < self.nodes[service].len() ==> {
                        let below = #[trigger] self.nodes[service][k];
                        !(self.statuses.contains_key(below) && (self.statuses[below]
                            == ServiceStatus::Unhealthy || self.statuses[below]
                            == ServiceStatus::Degraded))
                    }
                &&& self.is_depth(service, causes[i].depth as nat)
            },
            0 <= i < j < causes.len() ==> causes[i].service@ != causes[j].service@,
            0 <= i < j < causes.len() ==> causes[i].depth > causes[j].depth || causes[i].depth
                == causes[j].depth && (causes[i].status == ServiceStatus::Unhealthy
                || causes[j].status == ServiceStatus::Degraded),
            self.statuses.contains_key(name) && (self.statuses[name] == ServiceStatus::Unhealthy
                || self.statuses[name] == ServiceStatus::Degraded) && (forall|k: int|
                self.nodes.contains_key(name) && 0 <= k < self.nodes[name].len() ==> {
                    let below = #[trigger] self.nodes[name][k];
                    !(self.statuses.contains_key(below) && (self.statuses[below]
                        == ServiceStatus::Unhealthy || self.statuses[below]
                        == ServiceStatus::Degraded))
                }) ==> exists|i: int|
                0 <= i < causes.len() && #[trigger] causes[i].service@ == name,
    {
        if 0 <= i < causes.len() {
            let service = causes[i].service@;
            assert(self.is_root_cause(service));
            assert forall|k: int|
                self.nodes.contains_key(service) && 0 <= k < self.nodes[service].len() implies {
                let below = #[trigger] self.nodes[service][k];
                !(self.statuses.contains_key(below) && (self.statuses[below]
                    == ServiceStatus::Unhealthy || self.statuses[below]
                    == ServiceStatus::Degraded))
            } by {
                assert(self.dependencies(service)[k] == self.nodes[service][k]);
            }
            if i < j < causes.len() {
                assert(self.is_root_cause(causes[j].service@));
            }
        }
        if self.statuses.contains_key(name) && (self.statuses[name] == ServiceStatus::Unhealthy
            || self.statuses[name] == ServiceStatus::Degraded) && (forall|k: int|
            self.nodes.contains_key(name) && 0 <= k < self.nodes[name].len() ==> {
                let below = #[trigger] self.nodes[name][k];
                !(self.statuses.contains_key(below) && (self.statuses[below]
                    == ServiceStatus::Unhealthy || self.statuses[below]
                    == ServiceStatus::Degraded))
            }) {
            assert forall|k: int| 0 <= k < self.dependencies(name).len() implies !self.status(
                #[trigger] self.dependencies(name)[k],
            ).troubled() by {
                assert(self.dependencies(name)[k] == self.nodes[name][k]);
            }
            assert(self.is_root_cause(name));
        }
    }

    /// The trees of all roots are listed, each once, and nothing else.
    pub proof fn law_trees_are_listed(
        self,
        nodes: Seq<DependencyNode>,
        name: Seq<char>,
        i: int,
        j: int,
    )
        requires
            dependency::shows_trees(self, nodes),
        ensures
            0 <= i < nodes.len() ==> self.is_root(nodes[i].name@) && nodes[i].tree() == self.tree(
                nodes[i].name@,
            ),
            0 <= i < j < nodes.len() ==> nodes[i].name@ != nodes[j].name@,
            self.is_root(name) ==> exists|i: int|
                0 <= i < nodes.len() && #[trigger] nodes[i].name@ == name,
    {
    }

    /// The first place of a service in the trees of a walk tells the level of its visit.
    proof fn lemma_place_tells_level(
        self,
        names: Seq<Seq<char>>,
        level: nat,
        seen: Set<Seq<char>>,
        i: int,
    )
        requires
            self.nodes.dom().finite(),
            0 <= i < preorder(self.walk(names, level, seen).trees).len(),
            !seen.contains(preorder(self.walk(names, level, seen).trees)[i].name),
            !appears_before(preorder(self.walk(names, level, seen).trees), i),
        ensures
            ({
                let walk = self.walk(names, level, seen);
                walk.visits.contains(
                    Visit {
                        name: preorder(walk.trees)[i].name,
                        level: levels(walk.trees, level)[i],
                    },
                )
            }),
        decreases self.unseen(seen), names.len(),
    {
        let all = self.walk(names, level, seen);
        let places = preorder(all.trees);
        let first = names.first();
        let one = self.walk(seq![first], level, seen);
        let later = names.drop_first();
        let between = seen.union(walk::visited(one.visits));
        let rest = self.walk(later, level, between);
        self.lemma_walk_first(names, level, seen);
        self.lemma_walk_one(first, level, seen);
        self.lemma_unseen(seen, between);
        let top = one.trees[0];
        assert(one.trees =~= seq![top]);
        lemma_preorder_both(one.trees, rest.trees);
        lemma_preorder_one(top);
        lemma_levels_both(one.trees, rest.trees, level);
        lemma_levels_one(top, level);
        lemma_levels_len(one.trees, level);
        let ahead = preorder(one.trees);
        let visit = Visit { name: places[i].name, level: levels(all.trees, level)[i] };
        if i == 0 {
            assert(places[0] == ahead[0]);
            assert(all.visits[0] == visit);
        } else if i < ahead.len() {
            assert(places[0] == ahead[0]);
            assert(places[0].name == first);
            if seen.contains(first) {
                assert(top.children =~= Seq::empty());
                assert(preorder(top.children) =~= Seq::empty());
            }
            let below = self.walk(self.dependencies(first), level + 1, seen.insert(first));
            let inner = preorder(below.trees);
            assert(ahead[i] == inner[i - 1]);
            assert(places[i] == ahead[i]);
            assert(!appears_before(inner, i - 1)) by {
                if appears_before(inner, i - 1) {
                    let j = choose|j: int|
                        0 <= j < i - 1 && #[trigger] inner[j].name == inner[i - 1].name;
                    assert(ahead[j + 1] == inner[j]);
                    assert(places[j + 1].name == places[i].name);
                }
            }
            self.lemma_fewer(first, seen);
            self.lemma_place_tells_level(
                self.dependencies(first),
                level + 1,
                seen.insert(first),
                i - 1,
            );
            assert(levels(all.trees, level)[i] == levels(below.trees, level + 1)[i - 1]) by {
                lemma_levels_len(below.trees, level + 1);
            }
            let k = choose|k: int| 0 <= k < below.visits.len() && below.visits[k] == visit;
            assert(one.visits[k + 1] == visit);
            assert(all.visits[k + 1] == visit);
        } else {
            let behind = preorder(rest.trees);
            let at = i - ahead.len();
            assert(places[i] == behind[at]);
            self.lemma_opened(seq![first], level, seen);
            assert(!walk::visited(one.visits).contains(places[i].name)) by {
                if walk::visited(one.visits).contains(places[i].name) {
                    let j = choose|j: int|
                        0 <= j < ahead.len() && #[trigger] ahead[j].name == places[i].name;
                    assert(places[j].name == places[i].name);
                }
            }
            assert(!appears_before(behind, at)) by {
                if appears_before(behind, at) {
                    let j = choose|j: int|
                        0 <= j < at && #[trigger] behind[j].name == behind[at].name;
                    assert(places[j + ahead.len()] == behind[j]);
                    assert(places[j + ahead.len()].name == places[i].name);
                }
            }
            self.lemma_place_tells_level(later, level, between, at);
            lemma_levels_len(rest.trees, level);
            assert(levels(all.trees, level)[i] == levels(rest.trees, level)[at]);
            let k = choose|k: int| 0 <= k < rest.visits.len() && rest.visits[k] == visit;
            assert(all.visits[k + one.visits.len()] == visit);
        }
    }

    /// The level on which the walk from a service meets another one is the one on which the other
    /// one stands in the tree of the service, at its first place from the top down.
    pub proof fn law_level_is_read_off_the_tree(self, root: Seq<char>, i: int)
        requires
            self.nodes.dom().finite(),
            0 <= i < preorder(seq![self.tree(root)]).len(),
            !appears_before(preorder(seq![self.tree(root)]), i),
        ensures
            self.level_below(root, preorder(seq![self.tree(root)])[i].name) == levels(
                seq![self.tree(root)],
                1,
            )[i],
            levels(seq![self.tree(root)], 1)[i] > 0,
    {
        let walk = self.walk(seq![root], 1, Set::empty());
        self.lemma_walk_one(root, 1, Set::empty());
        assert(walk.trees =~= seq![self.tree(root)]);
        let name = preorder(walk.trees)[i].name;
        let level = levels(walk.trees, 1)[i];
        self.lemma_place_tells_level(seq![root], 1, Set::empty(), i);
        let k = choose|k: int| 0 <= k < walk.visits.len() && walk.visits[k] == (Visit { name, level });
        assert(walk.visits[k].name == name);
        self.lemma_visit_has_path(seq![root], 1, Set::empty(), k);
        lemma_level_met(walk.visits, name);
        let m = choose|m: int|
            0 <= m < walk.visits.len() && #[trigger] walk.visits[m].name == name
                && walk.visits[m].level == walk::level_of(walk.visits, name);
        if m < k {
            self.law_walk_visits_once(seq![root], 1, Set::empty(), m, k);
        } else if k < m {
            self.law_walk_visits_once(seq![root], 1, Set::empty(), k, m);
        }
    }

    /// The depth of a service is the deepest of the levels of its first places in the trees of all
    /// roots: none of these is deeper, and one of them is as deep, unless the depth is 0. Where it
    /// is 0, no tree of a root holds the service.
    pub proof fn law_depth_is_read_off_the_trees(self, name: Seq<char>, depth: nat)
        requires
            self.nodes.dom().finite(),
            self.is_depth(name, depth),
        ensures
            forall|root: Seq<char>, i: int|
                self.is_root(root) && #[trigger] self.first_place(root, name, i) ==> 0 < levels(
                    seq![self.tree(root)],
                    1,
                )[i] <= depth,
            depth > 0 ==> exists|root: Seq<char>, i: int|
                self.is_root(root) && #[trigger] self.first_place(root, name, i) && levels(
                    seq![self.tree(root)],
                    1,
                )[i] == depth,
            depth == 0 ==> forall|root: Seq<char>|
                self.is_root(root) ==> !#[trigger] holds(self.tree(root), name),
    {
        assert forall|root: Seq<char>, i: int|
            self.is_root(root) && #[trigger] self.first_place(root, name, i) implies 0 < levels(
            seq![self.tree(root)],
            1,
        )[i] <= depth by {
            self.law_level_is_read_off_the_tree(root, i);
            assert(self.level_below(root, name) <= depth);
        }
        if depth > 0 {
            let root = choose|root: Seq<char>|
                self.is_root(root) && #[trigger] self.level_below(root, name) == depth;
            self.law_level_is_a_path_length(root, name);
            self.law_walk_visits_what_is_reached(root, name);
            let walk = self.walk(seq![root], 1, Set::empty());
            self.lemma_opened(seq![root], 1, Set::empty());
            self.lemma_walk_one(root, 1, Set::empty());
            assert(walk.trees =~= seq![self.tree(root)]);
            let places = preorder(seq![self.tree(root)]);
            let k = choose|k: int| 0 <= k < places.len() && #[trigger] places[k].name == name;
            let i = lemma_first_of(places, k);
            assert(self.first_place(root, name, i));
            self.law_level_is_read_off_the_tree(root, i);
        } else {
            assert forall|root: Seq<char>| self.is_root(root) implies !#[trigger] holds(
                self.tree(root),
                name,
            ) by {
                self.law_tree_holds_what_is_reached(root, name);
                self.law_level_is_a_path_length(root, name);
                assert(self.level_below(root, name) <= depth);
            }
        }
    }

    /// Whether a service stands at a place in the tree of another one, and at none before.
    pub open spec fn first_place(self, root: Seq<char>, name: Seq<char>, i: int) -> bool {
        let places = preorder(seq![self.tree(root)]);
        &&& 0 <= i < places.len()
        &&& places[i].name == name
        &&& !appears_before(places, i)
    }

    /// The walk from a service that is not to be skipped meets it on the level where it starts,
    /// and all others on that level or deeper.
    pub proof fn law_walk_goes_down(
        self,
        name: Seq<char>,
        level: nat,
        seen: Set<Seq<char>>,
        other: Seq<char>,
    )
        requires
            self.nodes.dom().finite(),
        ensures
            ({
                let visits = self.walk(seq![name], level, seen).visits;
                &&& seen.contains(name) ==> visits.len() == 0
                &&& !seen.contains(name) ==> walk::visited(visits).contains(name)
                    && walk::level_of(visits, name) == level
                &&& walk::visited(visits).contains(other) ==> !seen.contains(other)
                    && walk::level_of(visits, other) >= level
                &&& !walk::visited(visits).contains(other) ==> walk::level_of(visits, other) == 0
            }),
    {
        let visits = self.walk(seq![name], level, seen).visits;
        self.lemma_walk_one(name, level, seen);
        lemma_level_met(visits, name);
        lemma_level_met(visits, other);
        if !seen.contains(name) {
            assert(visits[0].name == name);
            if walk::level_of(visits, name) > 0 {
                let k = choose|k: int|
                    0 <= k < visits.len() && #[trigger] visits[k].name == name && visits[k].level
                        == walk::level_of(visits, name);
                if k > 0 {
                    self.law_walk_visits_once(seq![name], level, seen, 0, k);
                }
            }
        }
        if walk::visited(visits).contains(other) {
            let k = choose|k: int| 0 <= k < visits.len() && #[trigger] visits[k].name == other;
            self.lemma_visit_has_path(seq![name], level, seen, k);
        }
    }

    /// A tree holds what it spreads out.
    proof fn lemma_spread_is_held(self, tree: Tree, name: Seq<char>)
        requires
            self.spreads_out(tree, name),
        ensures
            holds(tree, name),
        decreases tree,
    {
        if tree.name != name {
            let i = choose|i: int|
                0 <= i < tree.children.len() && self.spreads_out(
                    #[trigger] tree.children[i],
                    name,
                );
            self.lemma_spread_is_held(tree.children[i], name);
        }
    }
}

/// Whether a tree holds a service.
pub open spec fn holds(tree: Tree, name: Seq<char>) -> bool
    decreases tree,
{
    ||| tree.name == name
    ||| exists|i: int| 0 <= i < tree.children.len() && holds(#[trigger] tree.children[i], name)
}

/// Whether what a tree shows right below its service are these services, in this order.
pub open spec fn shows_below(tree: Tree, names: Seq<Seq<char>>) -> bool {
    &&& tree.children.len() == names.len()
    &&& forall|i: int| 0 <= i < names.len() ==> (#[trigger] tree.children[i]).name == names[i]
}

/// All places in some trees, read from the top down and from left to right.
pub open spec fn preorder(trees: Seq<Tree>) -> Seq<Tree>
    decreases trees,
{
    if trees.len() == 0 {
        Seq::empty()
    } else {
        seq![trees[0]] + preorder(trees[0].children) + preorder(trees.drop_first())
    }
}

/// Whether the service at a place stands at an earlier place too.
pub open spec fn appears_before(places: Seq<Tree>, i: int) -> bool {
    exists|j: int| 0 <= j < i && #[trigger] places[j].name == places[i].name
}

/// The places in some trees and in others, one after the other, are those in all of them.
proof fn lemma_preorder_both(first: Seq<Tree>, second: Seq<Tree>)
    ensures
        preorder(first + second) == preorder(first) + preorder(second),
    decreases first.len(),
{
    if first.len() == 0 {
        assert(first + second =~= second);
        assert(preorder(first) + preorder(second) =~= preorder(second));
    } else {
        assert((first + second).drop_first() =~= first.drop_first() + second);
        lemma_preorder_both(first.drop_first(), second);
        assert(preorder(first + second) =~= preorder(first) + preorder(second));
    }
}

/// The levels of all places in some trees, in the same order, where the tops stand on `level`.
pub open spec fn levels(trees: Seq<Tree>, level: nat) -> Seq<nat>
    decreases trees,
{
    if trees.len() == 0 {
        Seq::empty()
    } else {
        seq![level] + levels(trees[0].children, level + 1) + levels(trees.drop_first(), level)
    }
}

/// There is a level for each place.
proof fn lemma_levels_len(trees: Seq<Tree>, level: nat)
    ensures
        levels(trees, level).len() == preorder(trees).len(),
    decreases trees,
{
    if trees.len() > 0 {
        lemma_levels_len(trees[0].children, level + 1);
        lemma_levels_len(trees.drop_first(), level);
    }
}

/// The levels in some trees and in others, one after the other, are those in all of them.
proof fn lemma_levels_both(first: Seq<Tree>, second: Seq<Tree>, level: nat)
    ensures
        levels(first + second, level) == levels(first, level) + levels(second, level),
    decreases first.len(),
{
    if first.len() == 0 {
        assert(first + second =~= second);
        assert(levels(first, level) + levels(second, level) =~= levels(second, level));
    } else {
        assert((first + second).drop_first() =~= first.drop_first() + second);
        lemma_levels_both(first.drop_first(), second, level);
        assert(levels(first + second, level) =~= levels(first, level) + levels(second, level));
    }
}

/// The levels in a tree are that of its top and the deeper ones below.
proof fn lemma_levels_one(tree: Tree, level: nat)
    ensures
        levels(seq![tree], level) == seq![level] + levels(tree.children, level + 1),
{
    assert(seq![tree].drop_first() =~= Seq::empty());
    assert(levels(seq![tree].drop_first(), level) =~= Seq::empty());
    assert(levels(seq![tree], level) =~= seq![level] + levels(tree.children, level + 1));
}

/// A path that repeats nothing and skips some services still does with one in front that it
/// skipped too.
proof fn lemma_longer_repeats_nothing(
    name: Seq<char>,
    path: Seq<Seq<char>>,
    seen: Set<Seq<char>>,
)
    requires
        !seen.contains(name),
        path.no_duplicates(),
        forall|i: int| 0 <= i < path.len() ==> !seen.insert(name).contains(#[trigger] path[i]),
    ensures
        (seq![name] + path).no_duplicates(),
        forall|i: int|
            0 <= i < path.len() + 1 ==> !seen.contains(#[trigger] (seq![name] + path)[i]),
{
    let longer = seq![name] + path;
    assert forall|i: int| 0 <= i < longer.len() implies !seen.contains(#[trigger] longer[i]) by {
        if i > 0 {
            assert(longer[i] == path[i - 1]);
        }
    }
    assert forall|i: int, j: int| 0 <= i < j < longer.len() implies longer[i] != longer[j] by {
        assert(longer[j] == path[j - 1]);
        if i > 0 {
            assert(longer[i] == path[i - 1]);
        }
    }
}

/// A service that stands at some place stands at a first one.
proof fn lemma_first_of(places: Seq<Tree>, k: int) -> (i: int)
    requires
        0 <= k < places.len(),
    ensures
        0 <= i <= k,
        places[i].name == places[k].name,
        !appears_before(places, i),
    decreases k,
{
    if appears_before(places, k) {
        let j = choose|j: int| 0 <= j < k && #[trigger] places[j].name == places[k].name;
        lemma_first_of(places, j)
    } else {
        k
    }
}

/// The order of root causes is that of their depths, and of how bad they are where these are
/// equal.
pub proof fn law_priorities(a: RootCauseResult, b: RootCauseResult)
    ensures
        dependency::priority(ServiceStatus::Unhealthy) == 3,
        dependency::priority(ServiceStatus::Degraded) == 2,
        dependency::priority(ServiceStatus::Unknown) == 1,
        dependency::priority(ServiceStatus::Healthy) == 0,
        a.depth > b.depth ==> dependency::outranks(a, b),
        a.depth < b.depth ==> !dependency::outranks(a, b),
        a.depth == b.depth ==> (dependency::outranks(a, b) <==> dependency::priority(a.status)
            > dependency::priority(b.status)),
{
}

/// The places in a tree are its top and those below.
proof fn lemma_preorder_one(tree: Tree)
    ensures
        preorder(seq![tree]) == seq![tree] + preorder(tree.children),
{
    assert(seq![tree].drop_first() =~= Seq::empty());
    assert(preorder(seq![tree].drop_first()) =~= Seq::empty());
    assert(preorder(seq![tree]) =~= seq![tree] + preorder(tree.children));
}

/// A service is met by a visit on the level of some visit of it, and by none on a deeper one.
proof fn lemma_level_met(visits: Seq<Visit>, name: Seq<char>)
    ensures
        walk::level_of(visits, name) > 0 ==> exists|k: int|
            0 <= k < visits.len() && #[trigger] visits[k].name == name && visits[k].level
                == walk::level_of(visits, name),
        forall|k: int|
            0 <= k < visits.len() && #[trigger] visits[k].name == name ==> visits[k].level
                <= walk::level_of(visits, name),
    decreases visits.len(),
{
    if visits.len() > 0 {
        let earlier = visits.drop_last();
        lemma_level_met(earlier, name);
        assert forall|k: int|
            0 <= k < visits.len() && #[trigger] visits[k].name == name implies visits[k].level
            <= walk::level_of(visits, name) by {
            if k < earlier.len() {
                assert(earlier[k].name == name);
            }
        }
        if walk::level_of(visits, name) > 0 {
            if walk::level_of(visits, name) == walk::level_of(earlier, name) {
                let k = choose|k: int|
                    0 <= k < earlier.len() && #[trigger] earlier[k].name == name
                        && earlier[k].level == walk::level_of(earlier, name);
                assert(visits[k].name == name);
            } else {
                assert(visits[visits.len() - 1].name == name);
            }
        }
    }
}

} // verus!
