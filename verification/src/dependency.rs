//! Which services depend on which, and where trouble starts.

use crate::models;
use crate::models::{DependencyNode, RootCauseResult, ServiceStatus};
use crate::names::NameMap;
use crate::walk;
use crate::walk::{Graph, Tree, Visit};
use vstd::hash_set::StringHashSet;
use vstd::prelude::*;

verus! {

/// The trees that a list of nodes stands for.
pub open spec fn trees(nodes: Seq<DependencyNode>) -> Seq<Tree> {
    nodes.map_values(|node: DependencyNode| node.tree())
}

/// The services with what they depend on, and the last known status of each.
pub struct DependencyGraph {
    nodes: NameMap<Vec<String>>,
    statuses: NameMap<ServiceStatus>,
}

impl View for DependencyGraph {
    type V = Graph;

    closed spec fn view(&self) -> Graph {
        Graph {
            nodes: self.nodes@.map_values(|deps: Vec<String>| models::texts(deps@)),
            statuses: self.statuses@,
        }
    }
}

/// Whether a list shows the tree of each root of a graph once, and nothing else.
pub open spec fn shows_trees(graph: Graph, nodes: Seq<DependencyNode>) -> bool {
    &&& forall|i: int|
        0 <= i < nodes.len() ==> {
            &&& graph.is_root(#[trigger] nodes[i].name@)
            &&& nodes[i].tree() == graph.tree(nodes[i].name@)
        }
    &&& forall|name: Seq<char>|
        graph.is_root(name) ==> exists|i: int|
            0 <= i < nodes.len() && #[trigger] nodes[i].name@ == name
    &&& forall|i: int, j: int|
        0 <= i < j < nodes.len() ==> (#[trigger] nodes[i].name@) != (#[trigger] nodes[j].name@)
}

/// Whether a list shows each root cause in a graph once, with its depth and its status, and
/// nothing else: the deepest first, and the worst first among those that are equally deep.
pub open spec fn shows_causes(graph: Graph, causes: Seq<RootCauseResult>) -> bool {
    &&& forall|i: int|
        0 <= i < causes.len() ==> {
            &&& graph.is_root_cause(#[trigger] causes[i].service@)
            &&& causes[i].status == graph.status(causes[i].service@)
            &&& graph.is_depth(causes[i].service@, causes[i].depth as nat)
        }
    &&& forall|name: Seq<char>|
        graph.is_root_cause(name) ==> exists|i: int|
            0 <= i < causes.len() && #[trigger] causes[i].service@ == name
    &&& forall|i: int, j: int|
        0 <= i < j < causes.len() ==> (#[trigger] causes[i].service@) != (
        #[trigger] causes[j].service@)
    &&& ranked(causes)
}

/// How bad a status is.
pub open spec fn priority(status: ServiceStatus) -> int {
    match status {
        ServiceStatus::Unhealthy => 3,
        ServiceStatus::Degraded => 2,
        ServiceStatus::Unknown => 1,
        ServiceStatus::Healthy => 0,
    }
}

/// How bad a status is.
pub fn status_priority(status: ServiceStatus) -> (rank: u8)
    ensures
        rank == priority(status),
{
    match status {
        ServiceStatus::Unhealthy => 3,
        ServiceStatus::Degraded => 2,
        ServiceStatus::Unknown => 1,
        ServiceStatus::Healthy => 0,
    }
}

/// Whether a root cause is to be listed before another: the deeper one, and the worse one
/// of two that are equally deep.
pub open spec fn outranks(a: RootCauseResult, b: RootCauseResult) -> bool {
    a.depth > b.depth || a.depth == b.depth && priority(a.status) > priority(b.status)
}

/// Whether none in the list is to be listed before one that stands ahead of it.
pub open spec fn ranked(causes: Seq<RootCauseResult>) -> bool {
    forall|i: int, j: int|
        0 <= i < j < causes.len() ==> !outranks(#[trigger] causes[j], #[trigger] causes[i])
}

/// Puts a root cause into a ranked list, behind those that it does not outrank.
fn insert_ranked(causes: &mut Vec<RootCauseResult>, cause: RootCauseResult)
    requires
        ranked(old(causes)@),
    ensures
        ranked(final(causes)@),
        exists|at: int|
            0 <= at <= old(causes)@.len() && final(causes)@ == #[trigger] old(causes)@.insert(
                at,
                cause,
            ),
{
    let mut at: usize = causes.len();
    while at > 0 && (cause.depth > causes[at - 1].depth || (cause.depth == causes[at - 1].depth
        && status_priority(cause.status) > status_priority(causes[at - 1].status)))
        invariant
            at <= causes@.len(),
            causes@ == old(causes)@,
            forall|j: int| at <= j < causes@.len() ==> outranks(cause, #[trigger] causes@[j]),
        decreases at,
    {
        at = at - 1;
    }
    causes.insert(at, cause);
    proof {
        let before = old(causes)@;
        assert(causes@ == before.insert(at as int, cause));
        assert forall|i: int, j: int| 0 <= i < j < causes@.len() implies !outranks(
            #[trigger] causes@[j],
            #[trigger] causes@[i],
        ) by {
            if j == at {
                assert(causes@[i] == before[i]);
                assert(!outranks(before[at - 1], before[i]) || i == at - 1);
            } else if i == at {
                assert(causes@[j] == before[j - 1]);
            } else {
                let a = if i < at { i } else { i - 1 };
                let b = if j < at { j } else { j - 1 };
                assert(causes@[i] == before[a]);
                assert(causes@[j] == before[b]);
            }
        }
    }
}

/// Whether a list holds the root causes among `names`, each once and nothing else.
spec fn lists_causes(
    graph: Graph,
    names: Seq<Seq<char>>,
    causes: Seq<RootCauseResult>,
) -> bool {
    &&& forall|i: int|
        0 <= i < causes.len() ==> {
            &&& names.contains(#[trigger] causes[i].service@)
            &&& graph.is_root_cause(causes[i].service@)
            &&& causes[i].status == graph.status(causes[i].service@)
            &&& graph.is_depth(causes[i].service@, causes[i].depth as nat)
        }
    &&& forall|name: Seq<char>| #[trigger]
        names.contains(name) && graph.is_root_cause(name) ==> exists|i: int|
            0 <= i < causes.len() && #[trigger] causes[i].service@ == name
    &&& forall|i: int, j: int|
        0 <= i < j < causes.len() ==> (#[trigger] causes[i].service@) != (
        #[trigger] causes[j].service@)
}

proof fn lemma_cause_listed(
    graph: Graph,
    names: Seq<Seq<char>>,
    before: Seq<RootCauseResult>,
    at: int,
    cause: RootCauseResult,
)
    requires
        lists_causes(graph, names, before),
        0 <= at <= before.len(),
        !names.contains(cause.service@),
        graph.is_root_cause(cause.service@),
        cause.status == graph.status(cause.service@),
        graph.is_depth(cause.service@, cause.depth as nat),
    ensures
        lists_causes(graph, names.push(cause.service@), before.insert(at, cause)),
{
    let causes = before.insert(at, cause);
    let more = names.push(cause.service@);
    assert(more[names.len() as int] == cause.service@);
    assert forall|name: Seq<char>| names.contains(name) implies #[trigger] more.contains(name) by {
        let k = choose|k: int| 0 <= k < names.len() && names[k] == name;
        assert(more[k] == name);
    }
    assert forall|i: int| 0 <= i < causes.len() implies #[trigger] causes[i] == cause && i == at
        || exists|k: int| 0 <= k < before.len() && causes[i] == #[trigger] before[k] && k == (if i
        < at {
        i
    } else {
        i - 1
    }) by {
        if i < at {
            assert(causes[i] == before[i]);
        } else if i > at {
            assert(causes[i] == before[i - 1]);
        }
    }
    assert forall|name: Seq<char>| #[trigger]
        more.contains(name) && graph.is_root_cause(name) implies exists|i: int|
        0 <= i < causes.len() && #[trigger] causes[i].service@ == name by {
        if name == cause.service@ {
            assert(causes[at].service@ == name);
        } else {
            assert(names.contains(name)) by {
                let k = choose|k: int| 0 <= k < more.len() && more[k] == name;
                assert(names[k] == name);
            }
            let k = choose|k: int| 0 <= k < before.len() && #[trigger] before[k].service@ == name;
            let i = if k < at {
                k
            } else {
                k + 1
            };
            assert(causes[i].service@ == name);
        }
    }
}

proof fn lemma_cause_left_out(
    graph: Graph,
    names: Seq<Seq<char>>,
    causes: Seq<RootCauseResult>,
    name: Seq<char>,
)
    requires
        lists_causes(graph, names, causes),
        !graph.is_root_cause(name),
    ensures
        lists_causes(graph, names.push(name), causes),
{
    let more = names.push(name);
    assert forall|other: Seq<char>| names.contains(other) implies #[trigger] more.contains(
        other,
    ) by {
        let k = choose|k: int| 0 <= k < names.len() && names[k] == other;
        assert(more[k] == other);
    }
    assert forall|other: Seq<char>| #[trigger]
        more.contains(other) && other != name implies names.contains(other) by {
        let k = choose|k: int| 0 <= k < more.len() && more[k] == other;
        assert(names[k] == other);
    }
}

/// The depth that a table holds for a service, 0 where it holds none.
spec fn depth_in(depths: Map<Seq<char>, usize>, name: Seq<char>) -> nat {
    if depths.contains_key(name) {
        depths[name] as nat
    } else {
        0
    }
}

/// Whether there is a number for each level that a walk can get to from a level: where not too
/// many services are left for that, or where a service was seen on each level above.
spec fn has_room(graph: Graph, level: usize, seen: Set<Seq<char>>) -> bool {
    level + graph.unseen(seen) <= usize::MAX || level <= seen.len() + 1
}

/// Whether a walk that starts with a service on a level leaves these depths, and has seen these
/// services then. It leaves everything alone where the service was seen before. Each service
/// that it sees for the first time has at least the level as its depth then, and no less than
/// before. All other depths stay.
spec fn raises(
    name: Seq<char>,
    level: usize,
    depths_before: Map<Seq<char>, usize>,
    seen_before: Set<Seq<char>>,
    depths: Map<Seq<char>, usize>,
    seen: Set<Seq<char>>,
) -> bool {
    &&& seen_before.contains(name) ==> depths == depths_before && seen == seen_before
    &&& !seen_before.contains(name) ==> seen.contains(name) && depths[name] == walk::deeper(
        depth_in(depths_before, name),
        level as nat,
    )
    &&& seen_before.subset_of(seen)
    &&& depths.dom() == depths_before.dom().union(seen.difference(seen_before))
    &&& forall|other: Seq<char>| #[trigger]
        depths.contains_key(other) ==> if seen.contains(other) && !seen_before.contains(other) {
            depths[other] >= level && depths[other] >= depth_in(depths_before, other)
        } else {
            depths[other] == depths_before[other]
        }
}

/// What a walk leaves raises the depths of what it visits.
proof fn lemma_raises(
    graph: Graph,
    name: Seq<char>,
    level: usize,
    depths_before: Map<Seq<char>, usize>,
    seen_before: Set<Seq<char>>,
    depths: Map<Seq<char>, usize>,
    seen: Set<Seq<char>>,
)
    requires
        graph.nodes.dom().finite(),
        ({
            let visits = graph.walk(seq![name], level as nat, seen_before).visits;
            &&& seen == seen_before.union(walk::visited(visits))
            &&& depths.dom() == depths_before.dom().union(walk::visited(visits))
            &&& forall|other: Seq<char>| #[trigger]
                depth_in(depths, other) == walk::deeper(
                    depth_in(depths_before, other),
                    walk::level_of(visits, other),
                )
        }),
    ensures
        raises(name, level, depths_before, seen_before, depths, seen),
{
    let visits = graph.walk(seq![name], level as nat, seen_before).visits;
    graph.law_walk_goes_down(name, level as nat, seen_before, name);
    assert(depth_in(depths, name) == walk::deeper(
        depth_in(depths_before, name),
        walk::level_of(visits, name),
    ));
    assert forall|other: Seq<char>| #[trigger] walk::visited(visits).contains(
        other,
    ) implies !seen_before.contains(other) by {
        graph.law_walk_goes_down(name, level as nat, seen_before, other);
    }
    assert(seen.difference(seen_before) =~= walk::visited(visits));
    assert forall|other: Seq<char>| #[trigger]
        depths.contains_key(other) implies if seen.contains(other) && !seen_before.contains(
        other,
    ) {
        depths[other] >= level && depths[other] >= depth_in(depths_before, other)
    } else {
        depths[other] == depths_before[other]
    } by {
        graph.law_walk_goes_down(name, level as nat, seen_before, other);
        assert(depth_in(depths, other) == walk::deeper(
            depth_in(depths_before, other),
            walk::level_of(visits, other),
        ));
    }
    if seen_before.contains(name) {
        assert(walk::visited(visits) =~= Set::empty());
        assert(seen =~= seen_before);
        assert(depths =~= depths_before);
    }
}

impl DependencyGraph {
    /// A graph without services.
    pub fn new() -> (graph: Self)
        ensures
            graph@.nodes == Map::<Seq<char>, Seq<Seq<char>>>::empty(),
            graph@.statuses == Map::<Seq<char>, ServiceStatus>::empty(),
    {
        let graph = DependencyGraph { nodes: NameMap::new(), statuses: NameMap::new() };
        assert(graph@.nodes =~= Map::<Seq<char>, Seq<Seq<char>>>::empty());
        graph
    }

    /// Registers a service with what it depends on.
    pub fn add_service(&mut self, name: String, dependencies: Vec<String>)
        ensures
            final(self)@.nodes == old(self)@.nodes.insert(name@, models::texts(dependencies@)),
            final(self)@.statuses == old(self)@.statuses,
    {
        self.nodes.insert(name, dependencies);
        assert(self@.nodes =~= old(self)@.nodes.insert(name@, models::texts(dependencies@)));
    }

    /// Notes the status of a service.
    pub fn update_status(&mut self, name: &str, status: ServiceStatus)
        ensures
            final(self)@.nodes == old(self)@.nodes,
            final(self)@.statuses == old(self)@.statuses.insert(name@, status),
    {
        self.statuses.insert(name.to_owned(), status);
    }

    /// The last noted status of a service, `Unknown` where none was noted.
    pub fn get_status(&self, name: &str) -> (status: ServiceStatus)
        ensures
            status == self@.status(name@),
    {
        match self.statuses.get(name) {
            Some(status) => *status,
            None => ServiceStatus::Unknown,
        }
    }

    /// The tree of what `root` depends on. A service that the walk meets again has nothing
    /// below it the second time.
    pub fn build_tree(&self, root: &str) -> (node: DependencyNode)
        ensures
            self@.nodes.dom().finite(),
            node.tree() == self@.tree(root@),
    {
        // To count the services shows that they are finitely many, as the walk needs it.
        let _count: usize = self.nodes.len();
        let mut seen = StringHashSet::new();
        assert(self@.nodes.dom() =~= self.nodes@.dom());
        self.build_tree_recursive(root, &mut seen, Ghost(1))
    }

    fn build_tree_recursive(
        &self,
        name: &str,
        seen: &mut StringHashSet,
        Ghost(level): Ghost<nat>,
    ) -> (node: DependencyNode)
        requires
            self@.nodes.dom().finite(),
        ensures
            ({
                let walk = self@.walk(seq![name@], level, old(seen)@);
                &&& walk.trees == seq![node.tree()]
                &&& final(seen)@ == old(seen)@.union(walk::visited(walk.visits))
            }),
        decreases self@.unseen(old(seen)@),
    {
        let ghost before = seen@;
        let status = self.get_status(name);
        proof {
            self@.lemma_walk_one(name@, level, before);
        }
        let mut children: Vec<DependencyNode> = Vec::new();
        if seen.contains(name) {
            let node = DependencyNode { name: name.to_owned(), status, dependencies: children };
            proof {
                assert(node.tree().children =~= Seq::empty());
                assert(seen@ =~= before.union(walk::visited(Seq::empty())));
            }
            return node;
        }
        seen.insert(name.to_owned());
        let ghost inside = seen@;
        let ghost below = self@.walk(self@.dependencies(name@), level + 1, inside);
        let ghost names = self@.dependencies(name@);
        if let Some(deps) = self.nodes.get(name) {
            proof {
                self@.lemma_unseen_less(before, name@);
                assert(names =~= models::texts(deps@));
                assert(names.skip(0) =~= names);
            }
            for i in 0..deps.len()
                invariant
                    self@.nodes.dom().finite(),
                    names == models::texts(deps@),
                    before == old(seen)@,
                    self@.unseen(inside) < self@.unseen(before),
                    inside.subset_of(seen@),
                    children@.len() == i,
                    ({
                        let rest = self@.walk(names.skip(i as int), level + 1, seen@);
                        &&& below.trees == trees(children@) + rest.trees
                        &&& inside.union(walk::visited(below.visits)) == seen@.union(
                            walk::visited(rest.visits),
                        )
                    }),
            {
                let ghost earlier = children@;
                let ghost met = seen@;
                let ghost left = names.skip(i as int);
                proof {
                    self@.lemma_unseen(inside, met);
                }
                let child = self.build_tree_recursive(deps[i].as_str(), seen, Ghost(level + 1));
                children.push(child);
                proof {
                    assert(left.first() == deps@[i as int]@);
                    assert(left.drop_first() =~= names.skip(i + 1));
                    self@.lemma_walk_first(left, level + 1, met);
                    let first = self@.walk(seq![left.first()], level + 1, met);
                    let rest = self@.walk(names.skip(i + 1), level + 1, seen@);
                    walk::lemma_visited_both(first.visits, rest.visits);
                    assert(trees(children@) =~= trees(earlier) + seq![child.tree()]);
                    assert(below.trees =~= trees(children@) + rest.trees);
                    assert(met.union(walk::visited(first.visits + rest.visits)) =~= seen@.union(
                        walk::visited(rest.visits),
                    ));
                }
            }
            proof {
                assert(names.skip(deps@.len() as int) =~= Seq::empty());
            }
        }
        let node = DependencyNode { name: name.to_owned(), status, dependencies: children };
        proof {
            assert(node.tree().children =~= trees(children@));
            assert(below.trees =~= trees(children@));
            walk::lemma_visited_both(seq![Visit { name: name@, level }], below.visits);
            walk::lemma_visited_one(Visit { name: name@, level });
            assert(seen@ =~= inside.union(walk::visited(below.visits)));
            assert(before.union(walk::visited(seq![Visit { name: name@, level }] + below.visits))
                =~= seen@);
        }
        node
    }

    /// Whether nothing that the service depends on is in trouble.
    pub fn is_root_cause(&self, name: &str) -> (unexplained: bool)
        ensures
            unexplained == self@.unexplained(name@),
    {
        match self.nodes.get(name) {
            None => true,
            Some(deps) => {
                assert(self@.dependencies(name@) =~= models::texts(deps@));
                for i in 0..deps.len()
                    invariant
                        self@.dependencies(name@) == models::texts(deps@),
                        forall|j: int|
                            0 <= j < i ==> !self@.status(
                                #[trigger] self@.dependencies(name@)[j],
                            ).troubled(),
                {
                    assert(self@.dependencies(name@)[i as int] == deps@[i as int]@);
                    if self.get_status(deps[i].as_str()).is_troubled() {
                        return false;
                    }
                }
                true
            },
        }
    }

    /// The registered services that no registered service depends on, in some order.
    pub fn find_roots(&self) -> (roots: Vec<String>)
        ensures
            self@.nodes.dom().finite(),
            models::texts(roots@).no_duplicates(),
            forall|name: Seq<char>| models::texts(roots@).contains(name) <==> self@.is_root(name),
    {
        let count: usize = self.nodes.len();
        assert(self@.nodes.dom() =~= self.nodes@.dom());
        let mut children = StringHashSet::new();
        for i in 0..count
            invariant
                count == self.nodes.names().len(),
                forall|name: Seq<char>| #[trigger]
                    children@.contains(name) <==> exists|j: int|
                        0 <= j < i && #[trigger] self@.nodes[self.nodes.names()[j]].contains(name),
        {
            let deps = self.nodes.value_at(i);
            let ghost parent = self.nodes.names()[i as int];
            let ghost before = children@;
            assert(self@.nodes[parent] =~= models::texts(deps@));
            for k in 0..deps.len()
                invariant
                    forall|name: Seq<char>| #[trigger]
                        children@.contains(name) <==> before.contains(name) || exists|j: int|
                            0 <= j < k && #[trigger] deps@[j]@ == name,
            {
                children.insert(deps[k].clone());
            }
            proof {
                assert forall|name: Seq<char>| #[trigger] children@.contains(name) implies exists|
                    j: int,
                |
                    0 <= j < i + 1 && #[trigger] self@.nodes[self.nodes.names()[j]].contains(
                        name,
                    ) by {
                    if !before.contains(name) {
                        let k = choose|k: int| 0 <= k < deps@.len() && #[trigger] deps@[k]@ == name;
                        assert(models::texts(deps@)[k] == name);
                        assert(self@.nodes[self.nodes.names()[i as int]].contains(name));
                    }
                }
                assert forall|name: Seq<char>, j: int|
                    0 <= j < i + 1 && #[trigger] self@.nodes[self.nodes.names()[j]].contains(
                        name,
                    ) implies children@.contains(name) by {
                    if j < i {
                        assert(before.contains(name));
                    } else {
                        let k = choose|k: int|
                            0 <= k < models::texts(deps@).len() && models::texts(deps@)[k] == name;
                        assert(deps@[k]@ == name);
                    }
                }
            }
        }
        proof {
            assert forall|name: Seq<char>| #[trigger] children@.contains(name) == self@.has_parent(
                name,
            ) by {
                if self@.has_parent(name) {
                    let parent = choose|parent: Seq<char>| #[trigger]
                        self@.nodes.contains_key(parent) && self@.nodes[parent].contains(name);
                    assert(self.nodes.names().to_set().contains(parent));
                    let j = choose|j: int|
                        0 <= j < self.nodes.names().len() && self.nodes.names()[j] == parent;
                    assert(self@.nodes[self.nodes.names()[j]].contains(name));
                }
                if children@.contains(name) {
                    let j = choose|j: int|
                        0 <= j < count && #[trigger] self@.nodes[self.nodes.names()[j]].contains(
                            name,
                        );
                    assert(self.nodes.names().to_set().contains(self.nodes.names()[j]));
                    assert(self@.nodes.contains_key(self.nodes.names()[j]));
                }
            }
        }
        let mut roots: Vec<String> = Vec::new();
        for i in 0..count
            invariant
                count == self.nodes.names().len(),
                self.nodes.names().no_duplicates(),
                self.nodes.names().to_set() == self.nodes@.dom(),
                forall|name: Seq<char>| #[trigger]
                    children@.contains(name) == self@.has_parent(name),
                models::texts(roots@).no_duplicates(),
                forall|name: Seq<char>| #[trigger]
                    models::texts(roots@).contains(name) <==> self@.is_root(name) && exists|j: int|
                        0 <= j < i && #[trigger] self.nodes.names()[j] == name,
        {
            let name = self.nodes.name_at(i);
            let ghost before = models::texts(roots@);
            if !children.contains(name.as_str()) {
                roots.push(name.clone());
                proof {
                    assert(models::texts(roots@) =~= before.push(name@));
                    assert(!before.contains(name@)) by {
                        if before.contains(name@) {
                            let j = choose|j: int|
                                0 <= j < i && #[trigger] self.nodes.names()[j] == name@;
                            assert(j != i);
                        }
                    }
                    assert forall|other: Seq<char>| #[trigger]
                        models::texts(roots@).contains(other) <==> before.contains(other) || other
                            == name@ by {
                        if other == name@ {
                            assert(models::texts(roots@)[roots@.len() - 1] == name@);
                        }
                        if before.contains(other) {
                            let k = choose|k: int| 0 <= k < before.len() && before[k] == other;
                            assert(models::texts(roots@)[k] == other);
                        }
                    }
                }
            }
        }
        proof {
            assert forall|name: Seq<char>| self@.is_root(name) implies #[trigger] models::texts(
                roots@,
            ).contains(name) by {
                assert(self.nodes.names().to_set().contains(name));
            }
        }
        roots
    }

    /// The trees of all roots, in some order.
    pub fn all_trees(&self) -> (nodes: Vec<DependencyNode>)
        ensures
            self@.nodes.dom().finite(),
            shows_trees(self@, nodes@),
    {
        let roots = self.find_roots();
        let mut nodes: Vec<DependencyNode> = Vec::new();
        for i in 0..roots.len()
            invariant
                self@.nodes.dom().finite(),
                nodes@.len() == i,
                forall|j: int|
                    0 <= j < i ==> {
                        &&& #[trigger] nodes@[j].name@ == models::texts(roots@)[j]
                        &&& nodes@[j].tree() == self@.tree(models::texts(roots@)[j])
                    },
        {
            proof {
                self@.lemma_walk_one(roots@[i as int]@, 1, Set::empty());
            }
            let node = self.build_tree(roots[i].as_str());
            assert(node.tree().name == node.name@);
            nodes.push(node);
        }
        proof {
            let names = models::texts(roots@);
            assert forall|i: int| 0 <= i < nodes@.len() implies self@.is_root(
                #[trigger] nodes@[i].name@,
            ) by {
                assert(names.contains(names[i]));
            }
            assert forall|name: Seq<char>| self@.is_root(name) implies exists|i: int|
                0 <= i < nodes@.len() && #[trigger] nodes@[i].name@ == name by {
                assert(names.contains(name));
                let i = choose|i: int| 0 <= i < names.len() && names[i] == name;
                assert(nodes@[i].name@ == name);
            }
        }
        nodes
    }

    /// Raises the depths of what the walk from `name` meets, which lies on `current_depth`. A
    /// service that the walk meets again keeps the depth of the first time.
    fn compute_depths(
        &self,
        name: &str,
        current_depth: usize,
        depths: &mut NameMap<usize>,
        seen: &mut StringHashSet,
    )
        requires
            self@.nodes.dom().finite(),
            old(seen)@.finite(),
            has_room(self@, current_depth, old(seen)@),
        ensures
            final(seen)@.finite(),
            old(seen)@.len() <= final(seen)@.len(),
            ({
                let visits = self@.walk(seq![name@], current_depth as nat, old(seen)@).visits;
                &&& final(seen)@ == old(seen)@.union(walk::visited(visits))
                &&& final(depths)@.dom() == old(depths)@.dom().union(walk::visited(visits))
                &&& forall|other: Seq<char>| #[trigger]
                    depth_in(final(depths)@, other) == walk::deeper(
                        depth_in(old(depths)@, other),
                        walk::level_of(visits, other),
                    )
            }),
            raises(
                name@,
                current_depth,
                old(depths)@,
                old(seen)@,
                final(depths)@,
                final(seen)@,
            ),
        decreases self@.unseen(old(seen)@),
    {
        let ghost before = seen@;
        let ghost level = current_depth as nat;
        proof {
            self@.lemma_walk_one(name@, level, before);
        }
        if seen.contains(name) {
            assert(seen@ =~= before.union(walk::visited(Seq::empty())));
            proof {
                assert(depths@.dom() =~= old(depths)@.dom().union(walk::visited(Seq::empty())));
                lemma_raises(self@, name@, current_depth, old(depths)@, before, depths@, seen@);
            }
            return ;
        }
        seen.insert(name.to_owned());
        let ghost inside = seen@;
        let raise = match depths.get(name) {
            Some(known) => current_depth > *known,
            None => true,
        };
        if raise {
            depths.insert(name.to_owned(), current_depth);
        }
        let ghost raised = depths@;
        let ghost here = seq![Visit { name: name@, level }];
        let ghost names = self@.dependencies(name@);
        let ghost below = self@.walk(names, level + 1, inside);
        proof {
            assert forall|other: Seq<char>| #[trigger] depth_in(raised, other) == walk::deeper(
                depth_in(old(depths)@, other),
                walk::level_of(here, other),
            ) by {
                walk::lemma_level_one(here[0], other);
            }
            walk::lemma_visited_one(here[0]);
            assert(raised.dom() =~= old(depths)@.dom().union(walk::visited(here)));
        }
        if let Some(deps) = self.nodes.get(name) {
            proof {
                self@.lemma_unseen_less(before, name@);
                assert(names =~= models::texts(deps@));
                assert(names.skip(0) =~= names);
            }
            for i in 0..deps.len()
                invariant
                    self@.nodes.dom().finite(),
                    names == models::texts(deps@),
                    before == old(seen)@,
                    self@.unseen(inside) < self@.unseen(before),
                    inside.subset_of(seen@),
                    seen@.finite(),
                    inside.len() <= seen@.len(),
                    level == current_depth as nat,
                    level + self@.unseen(inside) < usize::MAX || level <= inside.len(),
                    ({
                        let rest = self@.walk(names.skip(i as int), level + 1, seen@);
                        &&& inside.union(walk::visited(below.visits)) == seen@.union(
                            walk::visited(rest.visits),
                        )
                        &&& raised.dom().union(walk::visited(below.visits))
                            == depths@.dom().union(walk::visited(rest.visits))
                        &&& forall|other: Seq<char>|
                            walk::deeper(
                                depth_in(raised, other),
                                #[trigger] walk::level_of(below.visits, other),
                            ) == walk::deeper(
                                depth_in(depths@, other),
                                walk::level_of(rest.visits, other),
                            )
                    }),
            {
                let ghost seen_before = seen@;
                let ghost depths_before = depths@;
                let ghost left = names.skip(i as int);
                proof {
                    self@.lemma_unseen(inside, seen_before);
                }
                // Where there is no number for the next level, all names have been seen.
                let below_depth: usize = current_depth.saturating_add(1);
                self.compute_depths(deps[i].as_str(), below_depth, depths, seen);
                let _met: usize = seen.len();
                proof {
                    assert(left.first() == deps@[i as int]@);
                    assert(left.drop_first() =~= names.skip(i + 1));
                    self@.lemma_walk_first(left, level + 1, seen_before);
                    self@.lemma_walk_one(left.first(), level + 1, seen_before);
                    self@.lemma_walk_one(left.first(), below_depth as nat, seen_before);
                    if below_depth != level + 1 && !seen_before.contains(left.first()) {
                        let visit = Visit { name: left.first(), level: below_depth as nat };
                        let under = self@.walk(
                            self@.dependencies(left.first()),
                            below_depth as nat + 1,
                            seen_before.insert(left.first()),
                        );
                        walk::lemma_visited_one(visit);
                        walk::lemma_visited_both(seq![visit], under.visits);
                        assert(seen_before.insert(left.first()).subset_of(seen@));
                        vstd::set_lib::lemma_len_subset(seen_before.insert(left.first()), seen@);
                        assert(false);
                    }
                    let first = self@.walk(seq![left.first()], level + 1, seen_before);
                    let rest = self@.walk(names.skip(i + 1), level + 1, seen@);
                    walk::lemma_visited_both(first.visits, rest.visits);
                    assert(seen_before.union(walk::visited(first.visits + rest.visits))
                        =~= seen@.union(walk::visited(rest.visits)));
                    assert(depths_before.dom().union(walk::visited(first.visits + rest.visits))
                        =~= depths@.dom().union(walk::visited(rest.visits)));
                    assert forall|other: Seq<char>|
                        walk::deeper(
                            depth_in(raised, other),
                            #[trigger] walk::level_of(below.visits, other),
                        ) == walk::deeper(
                            depth_in(depths@, other),
                            walk::level_of(rest.visits, other),
                        ) by {
                        walk::lemma_level_both(first.visits, rest.visits, other);
                        assert(depth_in(depths@, other) == walk::deeper(
                            depth_in(depths_before, other),
                            walk::level_of(first.visits, other),
                        ));
                    }
                }
            }
            proof {
                assert(names.skip(deps@.len() as int) =~= Seq::empty());
            }
        }
        proof {
            walk::lemma_visited_both(here, below.visits);
            walk::lemma_visited_one(here[0]);
            assert(seen@ =~= inside.union(walk::visited(below.visits)));
            assert(before.union(walk::visited(here + below.visits)) =~= seen@);
            assert(depths@.dom() =~= raised.dom().union(walk::visited(below.visits)));
            assert(depths@.dom() =~= old(depths)@.dom().union(
                walk::visited(here + below.visits),
            ));
            assert forall|other: Seq<char>| #[trigger] depth_in(depths@, other) == walk::deeper(
                depth_in(old(depths)@, other),
                walk::level_of(here + below.visits, other),
            ) by {
                walk::lemma_level_both(here, below.visits, other);
                assert(depth_in(raised, other) == walk::deeper(
                    depth_in(old(depths)@, other),
                    walk::level_of(here, other),
                ));
            }
            lemma_raises(self@, name@, current_depth, old(depths)@, before, depths@, seen@);
        }
    }

    /// The services in trouble that none of their own dependencies explains, each once, the
    /// deepest first and the worst first among those that are equally deep.
    pub fn find_root_causes(&self) -> (causes: Vec<RootCauseResult>)
        ensures
            self@.nodes.dom().finite(),
            shows_causes(self@, causes@),
    {
        let mut depths: NameMap<usize> = NameMap::new();
        let roots = self.find_roots();
        for i in 0..roots.len()
            invariant
                self@.nodes.dom().finite(),
                forall|name: Seq<char>, j: int|
                    0 <= j < i ==> #[trigger] self@.level_below(models::texts(roots@)[j], name)
                        <= depth_in(depths@, name),
                forall|name: Seq<char>|
                    (#[trigger] depth_in(depths@, name)) == 0 || exists|j: int|
                        0 <= j < i && #[trigger] self@.level_below(models::texts(roots@)[j], name)
                            == depth_in(depths@, name),
        {
            let ghost earlier = depths@;
            let mut seen = StringHashSet::new();
            self.compute_depths(roots[i].as_str(), 1, &mut depths, &mut seen);
            proof {
                let root = models::texts(roots@)[i as int];
                assert forall|name: Seq<char>| #[trigger] depth_in(depths@, name) == walk::deeper(
                    depth_in(earlier, name),
                    self@.level_below(root, name),
                ) by {}
                assert forall|name: Seq<char>|
                    (#[trigger] depth_in(depths@, name)) == 0 || exists|j: int|
                        0 <= j < i + 1 && #[trigger] self@.level_below(models::texts(roots@)[j], name)
                            == depth_in(depths@, name) by {
                    if depth_in(depths@, name) == self@.level_below(root, name) {
                        assert(self@.level_below(models::texts(roots@)[i as int], name) == depth_in(
                            depths@,
                            name,
                        ));
                    } else if depth_in(earlier, name) != 0 {
                        let j = choose|j: int|
                            0 <= j < i && #[trigger] self@.level_below(models::texts(roots@)[j], name)
                                == depth_in(earlier, name);
                        assert(self@.level_below(models::texts(roots@)[j], name) == depth_in(
                            depths@,
                            name,
                        ));
                    }
                }
            }
        }
        proof {
            assert forall|name: Seq<char>| self@.is_depth(
                name,
                #[trigger] depth_in(depths@, name),
            ) by {
                let depth = depth_in(depths@, name);
                assert forall|root: Seq<char>| self@.is_root(root) implies
                    #[trigger] self@.level_below(root, name) <= depth by {
                    assert(models::texts(roots@).contains(root));
                    let j = choose|j: int|
                        0 <= j < models::texts(roots@).len() && models::texts(roots@)[j] == root;
                    assert(self@.level_below(models::texts(roots@)[j], name) <= depth);
                }
                if depth != 0 {
                    let j = choose|j: int|
                        0 <= j < roots@.len() && #[trigger] self@.level_below(
                            models::texts(roots@)[j],
                            name,
                        ) == depth;
                    assert(models::texts(roots@).contains(models::texts(roots@)[j]));
                }
            }
        }
        let known: usize = self.statuses.len();
        let ghost names = self.statuses.names();
        let mut causes: Vec<RootCauseResult> = Vec::new();
        for i in 0..known
            invariant
                names == self.statuses.names(),
                known == names.len(),
                names.no_duplicates(),
                forall|name: Seq<char>| self@.is_depth(name, #[trigger] depth_in(depths@, name)),
                lists_causes(self@, names.take(i as int), causes@),
                ranked(causes@),
        {
            let name = self.statuses.name_at(i);
            let status = *self.statuses.value_at(i);
            let ghost before = causes@;
            proof {
                assert(names.take(i + 1) =~= names.take(i as int).push(name@));
                assert(!names.take(i as int).contains(name@));
            }
            if status.is_troubled() && self.is_root_cause(name.as_str()) {
                let depth: usize = match depths.get(name.as_str()) {
                    Some(depth) => *depth,
                    None => 0,
                };
                let cause = RootCauseResult { service: name.clone(), depth, status };
                insert_ranked(&mut causes, cause);
                proof {
                    assert(depth == depth_in(depths@, name@));
                    let at = choose|at: int|
                        0 <= at <= before.len() && causes@ == #[trigger] before.insert(at, cause);
                    lemma_cause_listed(self@, names.take(i as int), before, at, cause);
                }
            } else {
                proof {
                    lemma_cause_left_out(self@, names.take(i as int), before, name@);
                }
            }
        }
        proof {
            assert(names.take(known as int) =~= names);
            assert forall|name: Seq<char>| self@.is_root_cause(name) implies exists|i: int|
                0 <= i < causes@.len() && #[trigger] causes@[i].service@ == name by {
                assert(names.to_set().contains(name));
            }
        }
        causes
    }
}

impl Default for DependencyGraph {
    fn default() -> (graph: Self)
        ensures
            graph@.nodes == Map::<Seq<char>, Seq<Seq<char>>>::empty(),
            graph@.statuses == Map::<Seq<char>, ServiceStatus>::empty(),
    {
        DependencyGraph::new()
    }
}

} // verus!
