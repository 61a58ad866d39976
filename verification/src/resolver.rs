//! Dependency resolution: an installation order in which every component
//! comes after the components it depends on.

use crate::text::{
    byte_order, lemma_byte_order_antisymmetric, lemma_byte_order_reflexive,
    lemma_byte_order_transitive, lemma_byte_order_zero, order_bytes,
};
use vstd::prelude::*;
use vstd::string::*;
use vstd::utf8::*;

verus! {

/// One component of a dependency graph.
#[derive(Debug)]
pub struct GraphNode {
    /// The component's name: its key in the graph.
    pub name: String,
    /// The names of the components that must be installed before this one.
    pub depends_on: Vec<String>,
}

/// The mathematical value of a [`GraphNode`].
pub struct NodeModel {
    pub name: Seq<char>,
    pub depends_on: Seq<Seq<char>>,
}

impl View for GraphNode {
    type V = NodeModel;

    open spec fn view(&self) -> NodeModel {
        NodeModel { name: self.name@, depends_on: self.depends_on.deep_view() }
    }
}

/// A dependency graph: components in the order in which they were declared,
/// each name declared once.
#[derive(Debug)]
pub struct DependencyGraph {
    /// The declared components.
    pub nodes: Vec<GraphNode>,
}

impl View for DependencyGraph {
    type V = Seq<NodeModel>;

    open spec fn view(&self) -> Seq<NodeModel> {
        Seq::new(self.nodes@.len(), |i: int| self.nodes@[i]@)
    }
}

/// The components that cannot be installed: each of them is on a dependency
/// cycle, or depends on such a component or on one that was never declared.
#[derive(Debug)]
pub struct DependencyCycleError {
    /// The names of the unresolved components, in declaration order.
    pub unresolved: Vec<String>,
}

/// No two nodes of `g` have the same name.
pub open spec fn distinct_names(g: Seq<NodeModel>) -> bool {
    forall|i: int, j: int| 0 <= i < j < g.len() ==> (#[trigger] g[i]).name != (#[trigger] g[j]).name
}

/// `g` declares a component named `n`.
pub open spec fn has_node(g: Seq<NodeModel>, n: Seq<char>) -> bool {
    exists|i: int| 0 <= i < g.len() && (#[trigger] g[i]).name == n
}

/// Every dependency of every component of `g` is itself declared in `g`.
pub open spec fn closed(g: Seq<NodeModel>) -> bool {
    forall|i: int, k: int|
        0 <= i < g.len() && 0 <= k < g[i].depends_on.len() ==> has_node(
            g,
            #[trigger] g[i].depends_on[k],
        )
}

/// Where the component named `n` is declared in `g`, if it is.
pub open spec fn node_index(g: Seq<NodeModel>, n: Seq<char>) -> Option<int> {
    if has_node(g, n) {
        Some(choose|i: int| 0 <= i < g.len() && (#[trigger] g[i]).name == n)
    } else {
        None
    }
}

/// `g` with `node` declared: in the place of the component of that name,
/// when there is one, and at the end otherwise.
pub open spec fn spec_insert(g: Seq<NodeModel>, node: NodeModel) -> Seq<NodeModel> {
    match node_index(g, node.name) {
        Some(i) => g.update(i, node),
        None => g.push(node),
    }
}

/// `a` sorts strictly before `b`: the order of the names' UTF-8 bytes.
pub open spec fn name_before(a: Seq<char>, b: Seq<char>) -> bool {
    byte_order(encode_utf8(a), encode_utf8(b)) < 0
}

/// Node `i` can be installed next once the components in `done` are
/// installed: it is not installed yet and all its dependencies are.
pub open spec fn ready(g: Seq<NodeModel>, done: Seq<Seq<char>>, i: int) -> bool {
    &&& 0 <= i < g.len()
    &&& !done.contains(g[i].name)
    &&& forall|k: int|
        0 <= k < g[i].depends_on.len() ==> done.contains(#[trigger] g[i].depends_on[k])
}

/// Node `i` is the one to install after `done`: it is ready, and no ready
/// node has a name that sorts before its name.
pub open spec fn is_next_at(g: Seq<NodeModel>, done: Seq<Seq<char>>, i: int) -> bool {
    &&& ready(g, done, i)
    &&& forall|j: int| #[trigger] ready(g, done, j) ==> !name_before(g[j].name, g[i].name)
}

/// `n` names the node to install after `done`.
pub open spec fn is_next(g: Seq<NodeModel>, done: Seq<Seq<char>>, n: Seq<char>) -> bool {
    exists|i: int| #[trigger] is_next_at(g, done, i) && g[i].name == n
}

/// `order` is the installation order of `g`, as far as it goes: at every
/// position stands the ready component whose name sorts first.
pub open spec fn is_resolution(g: Seq<NodeModel>, order: Seq<Seq<char>>) -> bool {
    forall|p: int| 0 <= p < order.len() ==> is_next(g, #[trigger] order.take(p), order[p])
}

/// The component named `n` can be installed with a chain of dependencies of
/// at most `depth` components below it, itself included.
pub open spec fn resolvable_within(g: Seq<NodeModel>, n: Seq<char>, depth: nat) -> bool
    decreases depth,
{
    depth > 0 && exists|i: int|
        0 <= i < g.len() && (#[trigger] g[i]).name == n && forall|k: int|
            0 <= k < g[i].depends_on.len() ==> resolvable_within(
                g,
                #[trigger] g[i].depends_on[k],
                (depth - 1) as nat,
            )
}

/// The component named `n` can be installed: it is declared, and so is
/// everything below it, without a cycle.
pub open spec fn resolvable(g: Seq<NodeModel>, n: Seq<char>) -> bool {
    exists|depth: nat| resolvable_within(g, n, depth)
}

/// The names of the components among the first `k` of `g` that cannot be
/// installed, in declaration order.
pub open spec fn unresolved_prefix(g: Seq<NodeModel>, k: int) -> Seq<Seq<char>>
    decreases k,
{
    if k <= 0 {
        Seq::empty()
    } else if resolvable(g, g[k - 1].name) {
        unresolved_prefix(g, k - 1)
    } else {
        unresolved_prefix(g, k - 1).push(g[k - 1].name)
    }
}

/// The names of the components of `g` that cannot be installed.
pub open spec fn unresolved(g: Seq<NodeModel>) -> Seq<Seq<char>> {
    unresolved_prefix(g, g.len() as int)
}

/// `g` has an edge from `from` to `to`: the component `from` depends on `to`.
pub open spec fn has_edge(g: Seq<NodeModel>, from: Seq<char>, to: Seq<char>) -> bool {
    exists|i: int, k: int|
        0 <= i < g.len() && 0 <= k < g[i].depends_on.len() && (#[trigger] g[i]).name == from
            && #[trigger] g[i].depends_on[k] == to
}

/// `path` walks along edges of `g` and ends where it began.
pub open spec fn is_cycle(g: Seq<NodeModel>, path: Seq<Seq<char>>) -> bool {
    &&& path.len() >= 2
    &&& path.first() == path.last()
    &&& forall|p: int| 0 <= p < path.len() - 1 ==> has_edge(g, #[trigger] path[p], path[p + 1])
}

/// Some component of `g` depends, directly or not, on itself.
pub open spec fn has_cycle(g: Seq<NodeModel>) -> bool {
    exists|path: Seq<Seq<char>>| is_cycle(g, path)
}

/// How many of the flags are set.
spec fn count_set(flags: Seq<bool>) -> nat
    decreases flags.len(),
{
    if flags.len() == 0 {
        0
    } else {
        count_set(flags.drop_last()) + if flags.last() {
            1nat
        } else {
            0nat
        }
    }
}

proof fn lemma_count_set_bound(flags: Seq<bool>)
    ensures
        count_set(flags) <= flags.len(),
        count_set(flags) == flags.len() ==> forall|i: int| 0 <= i < flags.len() ==> flags[i],
    decreases flags.len(),
{
    if flags.len() > 0 {
        lemma_count_set_bound(flags.drop_last());
        if count_set(flags) == flags.len() {
            assert forall|i: int| 0 <= i < flags.len() implies flags[i] by {
                if i < flags.len() - 1 {
                    assert(flags.drop_last()[i] == flags[i]);
                }
            }
        }
    }
}

proof fn lemma_count_set_update(flags: Seq<bool>, i: int)
    requires
        0 <= i < flags.len(),
        !flags[i],
    ensures
        count_set(flags.update(i, true)) == count_set(flags) + 1,
    decreases flags.len(),
{
    let after = flags.update(i, true);
    if i == flags.len() - 1 {
        assert(after.drop_last() =~= flags.drop_last());
    } else {
        lemma_count_set_update(flags.drop_last(), i);
        assert(after.drop_last() =~= flags.drop_last().update(i, true));
    }
}

/// How many entries of `deps` are not in `done`: the dependencies that
/// are still to be resolved.
spec fn unmet(deps: Seq<Seq<char>>, done: Seq<Seq<char>>) -> nat
    decreases deps.len(),
{
    if deps.len() == 0 {
        0
    } else {
        unmet(deps.drop_last(), done) + if done.contains(deps.last()) {
            0nat
        } else {
            1nat
        }
    }
}

/// How many entries of `deps` are `x`.
spec fn occurrences(deps: Seq<Seq<char>>, x: Seq<char>) -> nat
    decreases deps.len(),
{
    if deps.len() == 0 {
        0
    } else {
        occurrences(deps.drop_last(), x) + if deps.last() == x {
            1nat
        } else {
            0nat
        }
    }
}

/// The link between the state of a resolution in progress and the order
/// built so far: a node is flagged exactly when its name was emitted, and
/// its count is the number of its dependencies that were not emitted.
spec fn tracks(g: Seq<NodeModel>, flags: Seq<bool>, pending: Seq<usize>, done: Seq<Seq<char>>) -> bool {
    &&& flags.len() == g.len()
    &&& pending.len() == g.len()
    &&& forall|i: int| 0 <= i < g.len() ==> (#[trigger] flags[i] <==> done.contains(g[i].name))
    &&& forall|i: int| 0 <= i < g.len() ==> #[trigger] pending[i] == unmet(g[i].depends_on, done)
}

/// No dependency is unmet exactly when every dependency was emitted.
proof fn lemma_unmet_zero(deps: Seq<Seq<char>>, done: Seq<Seq<char>>)
    ensures
        unmet(deps, done) == 0 <==> forall|k: int|
            0 <= k < deps.len() ==> done.contains(#[trigger] deps[k]),
    decreases deps.len(),
{
    if deps.len() > 0 {
        lemma_unmet_zero(deps.drop_last(), done);
        if unmet(deps, done) == 0 {
            assert forall|k: int| 0 <= k < deps.len() implies done.contains(#[trigger] deps[k]) by {
                if k < deps.len() - 1 {
                    assert(deps.drop_last()[k] == deps[k]);
                }
            }
        } else {
            if forall|k: int| 0 <= k < deps.len() ==> done.contains(#[trigger] deps[k]) {
                assert forall|k: int| 0 <= k < deps.drop_last().len() implies done.contains(
                    #[trigger] deps.drop_last()[k],
                ) by {
                    assert(deps.drop_last()[k] == deps[k]);
                }
                assert(done.contains(deps[deps.len() - 1]));
            }
        }
    }
}

/// Nothing is emitted at the start, so every dependency is unmet.
proof fn lemma_unmet_at_start(deps: Seq<Seq<char>>)
    ensures
        unmet(deps, Seq::empty()) == deps.len(),
    decreases deps.len(),
{
    if deps.len() > 0 {
        lemma_unmet_at_start(deps.drop_last());
        assert(!Seq::<Seq<char>>::empty().contains(deps.last()));
    }
}

/// Emitting `x` meets the dependencies that name `x`, and no others.
proof fn lemma_unmet_after(deps: Seq<Seq<char>>, done: Seq<Seq<char>>, x: Seq<char>, upto: int)
    requires
        !done.contains(x),
        0 <= upto <= deps.len(),
    ensures
        unmet(deps.take(upto), done.push(x)) + occurrences(deps.take(upto), x) == unmet(
            deps.take(upto),
            done,
        ),
        unmet(deps.take(upto), done) <= unmet(deps, done),
        occurrences(deps.take(upto), x) <= unmet(deps, done),
    decreases deps.len() - upto,
{
    lemma_unmet_prefix(deps.take(upto), done, x);
    if upto < deps.len() {
        lemma_unmet_after(deps, done, x, upto + 1);
        assert(deps.take(upto + 1).drop_last() =~= deps.take(upto));
        lemma_unmet_prefix(deps.take(upto + 1), done, x);
    } else {
        assert(deps.take(upto) =~= deps);
    }
}

proof fn lemma_unmet_prefix(deps: Seq<Seq<char>>, done: Seq<Seq<char>>, x: Seq<char>)
    requires
        !done.contains(x),
    ensures
        unmet(deps, done.push(x)) + occurrences(deps, x) == unmet(deps, done),
    decreases deps.len(),
{
    if deps.len() > 0 {
        lemma_unmet_prefix(deps.drop_last(), done, x);
        lemma_contains_push(done, x, deps.last());
    }
}

proof fn lemma_contains_push(s: Seq<Seq<char>>, y: Seq<char>, x: Seq<char>)
    ensures
        s.push(y).contains(x) <==> (s.contains(x) || x == y),
{
    if s.contains(x) {
        let j = choose|j: int| 0 <= j < s.len() && s[j] == x;
        assert(s.push(y)[j] == x);
    }
    if x == y {
        assert(s.push(y)[s.len() as int] == x);
    }
    if s.push(y).contains(x) {
        let j = choose|j: int| 0 <= j < s.push(y).len() && s.push(y)[j] == x;
        if j < s.len() {
            assert(s[j] == x);
        }
    }
}

/// A component that can be installed within some depth can be installed
/// within any greater depth.
pub proof fn lemma_resolvable_monotone(g: Seq<NodeModel>, n: Seq<char>, d1: nat, d2: nat)
    requires
        resolvable_within(g, n, d1),
        d1 <= d2,
    ensures
        resolvable_within(g, n, d2),
    decreases d1,
{
    let i = choose|i: int|
        0 <= i < g.len() && (#[trigger] g[i]).name == n && forall|k: int|
            0 <= k < g[i].depends_on.len() ==> resolvable_within(
                g,
                #[trigger] g[i].depends_on[k],
                (d1 - 1) as nat,
            );
    assert forall|k: int| 0 <= k < g[i].depends_on.len() implies resolvable_within(
        g,
        #[trigger] g[i].depends_on[k],
        (d2 - 1) as nat,
    ) by {
        lemma_resolvable_monotone(g, g[i].depends_on[k], (d1 - 1) as nat, (d2 - 1) as nat);
    }
}

proof fn lemma_common_depth(g: Seq<NodeModel>, deps: Seq<Seq<char>>, upto: int) -> (d: nat)
    requires
        0 <= upto <= deps.len(),
        forall|k: int| 0 <= k < upto ==> resolvable(g, #[trigger] deps[k]),
    ensures
        forall|k: int| 0 <= k < upto ==> resolvable_within(g, #[trigger] deps[k], d),
    decreases upto,
{
    if upto == 0 {
        0
    } else {
        let d0 = lemma_common_depth(g, deps, upto - 1);
        let last = deps[upto - 1];
        assert(resolvable(g, last));
        let d1 = choose|d: nat| resolvable_within(g, last, d);
        let d = if d0 >= d1 {
            d0
        } else {
            d1
        };
        assert forall|k: int| 0 <= k < upto implies resolvable_within(g, #[trigger] deps[k], d) by {
            if k < upto - 1 {
                lemma_resolvable_monotone(g, deps[k], d0, d);
            } else {
                lemma_resolvable_monotone(g, deps[k], d1, d);
            }
        }
        d
    }
}

/// A component whose dependencies all stand among installable components is
/// installable itself.
proof fn lemma_ready_is_resolvable(g: Seq<NodeModel>, done: Seq<Seq<char>>, i: int)
    requires
        ready(g, done, i),
        forall|p: int| 0 <= p < done.len() ==> resolvable(g, #[trigger] done[p]),
    ensures
        resolvable(g, g[i].name),
{
    let deps = g[i].depends_on;
    assert forall|k: int| 0 <= k < deps.len() implies resolvable(g, #[trigger] deps[k]) by {
        assert(done.contains(g[i].depends_on[k]));
        let p = choose|p: int| 0 <= p < done.len() && done[p] == deps[k];
        assert(resolvable(g, done[p]));
    }
    let d = lemma_common_depth(g, deps, deps.len() as int);
    assert(resolvable_within(g, g[i].name, d + 1));
}

/// Once no component is ready, none of those left can be installed.
proof fn lemma_stuck_unresolvable(
    g: Seq<NodeModel>,
    done: Seq<Seq<char>>,
    n: Seq<char>,
    depth: nat,
)
    requires
        forall|i: int| !ready(g, done, i),
        !done.contains(n),
    ensures
        !resolvable_within(g, n, depth),
    decreases depth,
{
    if resolvable_within(g, n, depth) {
        let i = choose|i: int|
            0 <= i < g.len() && (#[trigger] g[i]).name == n && forall|k: int|
                0 <= k < g[i].depends_on.len() ==> resolvable_within(
                    g,
                    #[trigger] g[i].depends_on[k],
                    (depth - 1) as nat,
                );
        assert(!ready(g, done, i));
        let k = choose|k: int|
            0 <= k < g[i].depends_on.len() && !done.contains(#[trigger] g[i].depends_on[k]);
        lemma_stuck_unresolvable(g, done, g[i].depends_on[k], (depth - 1) as nat);
    }
}

/// The order of names is transitive.
proof fn lemma_name_before_transitive(a: Seq<char>, b: Seq<char>, c: Seq<char>)
    requires
        name_before(a, b),
        name_before(b, c),
    ensures
        name_before(a, c),
{
    lemma_byte_order_transitive(encode_utf8(a), encode_utf8(b), encode_utf8(c));
}

/// Whether `a` sorts strictly before `b`.
fn sorts_before(a: &String, b: &String) -> (r: bool)
    ensures
        r == name_before(a@, b@),
{
    order_bytes(a.as_str().as_bytes(), b.as_str().as_bytes()) < 0
}

impl DependencyGraph {
    /// The graph is well formed: every name is declared once.
    pub open spec fn wf(&self) -> bool {
        distinct_names(self@)
    }

    /// A graph without components.
    pub fn new() -> (g: DependencyGraph)
        ensures
            g.wf(),
            g@ == Seq::<NodeModel>::empty(),
    {
        let g = DependencyGraph { nodes: Vec::new() };
        assert(g@ =~= Seq::<NodeModel>::empty());
        g
    }

    /// The number of declared components.
    pub fn len(&self) -> (n: usize)
        ensures
            n == self@.len(),
    {
        self.nodes.len()
    }

    /// Where the component `name` is declared.
    pub fn position(&self, name: &String) -> (r: Option<usize>)
        ensures
            match r {
                Some(i) => i < self@.len() && self@[i as int].name == name@,
                None => !has_node(self@, name@),
            },
    {
        let mut i: usize = 0;
        while i < self.nodes.len()
            invariant
                i <= self.nodes.len(),
                forall|j: int| 0 <= j < i ==> (#[trigger] self@[j]).name != name@,
            decreases self.nodes.len() - i,
        {
            if self.nodes[i].name == *name {
                return Some(i);
            }
            i += 1;
        }
        None
    }

    /// Declares the component `name` with its dependencies. A component of
    /// that name that was declared before is replaced, in its place.
    pub fn insert(&mut self, name: String, depends_on: Vec<String>)
        requires
            old(self).wf(),
        ensures
            final(self).wf(),
            final(self)@ == spec_insert(
                old(self)@,
                NodeModel { name: name@, depends_on: depends_on.deep_view() },
            ),
    {
        let ghost before = self@;
        let ghost node = NodeModel { name: name@, depends_on: depends_on.deep_view() };
        match self.position(&name) {
            Some(i) => {
                self.nodes.set(i, GraphNode { name, depends_on });
                assert(self@ =~= before.update(i as int, node));
                assert(has_node(before, node.name));
                assert(node_index(before, node.name) == Some(i as int)) by {
                    let c = choose|c: int| 0 <= c < before.len() && (#[trigger] before[c]).name == node.name;
                    assert(before[i as int].name == before[c].name);
                }
                assert forall|a: int, b: int| 0 <= a < b < self@.len() implies (
                #[trigger] self@[a]).name != (#[trigger] self@[b]).name by {
                    assert(before[a].name == self@[a].name);
                    assert(before[b].name == self@[b].name);
                }
            },
            None => {
                self.nodes.push(GraphNode { name, depends_on });
                assert(self@ =~= before.push(node));
                assert forall|i: int, j: int| 0 <= i < j < self@.len() implies (
                #[trigger] self@[i]).name != (#[trigger] self@[j]).name by {
                    assert(before[i].name == self@[i].name);
                    if j < before.len() {
                        assert(before[j].name == self@[j].name);
                    }
                }
            },
        }
    }

    /// The number of dependencies of each node: the counts at the start,
    /// when nothing is emitted.
    fn dependency_counts(&self) -> (pending: Vec<usize>)
        ensures
            pending@.len() == self@.len(),
            forall|i: int|
                0 <= i < self@.len() ==> #[trigger] pending@[i] == unmet(
                    self@[i].depends_on,
                    Seq::empty(),
                ),
    {
        let mut pending: Vec<usize> = Vec::new();
        let mut i: usize = 0;
        while i < self.nodes.len()
            invariant
                i <= self.nodes.len(),
                pending@.len() == i,
                forall|j: int|
                    0 <= j < i ==> #[trigger] pending@[j] == unmet(
                        self@[j].depends_on,
                        Seq::empty(),
                    ),
            decreases self.nodes.len() - i,
        {
            proof {
                lemma_unmet_at_start(self@[i as int].depends_on);
            }
            pending.push(self.nodes[i].depends_on.len());
            i += 1;
        }
        pending
    }

    /// Counts down the dependencies that the node `emitted` has met: for
    /// every node, one for each of its dependencies that names `emitted`.
    fn settle(
        &self,
        emitted: usize,
        pending: &mut Vec<usize>,
        Ghost(done): Ghost<Seq<Seq<char>>>,
    )
        requires
            emitted < self@.len(),
            !done.contains(self@[emitted as int].name),
            old(pending)@.len() == self@.len(),
            forall|i: int|
                0 <= i < self@.len() ==> #[trigger] old(pending)@[i] == unmet(
                    self@[i].depends_on,
                    done,
                ),
        ensures
            final(pending)@.len() == self@.len(),
            forall|i: int|
                0 <= i < self@.len() ==> #[trigger] final(pending)@[i] == unmet(
                    self@[i].depends_on,
                    done.push(self@[emitted as int].name),
                ),
    {
        let ghost x = self@[emitted as int].name;
        let ghost after = done.push(x);
        let mut i: usize = 0;
        while i < self.nodes.len()
            invariant
                i <= self.nodes.len(),
                emitted < self@.len(),
                x == self@[emitted as int].name,
                after == done.push(x),
                !done.contains(x),
                pending@.len() == self@.len(),
                forall|j: int|
                    0 <= j < i ==> #[trigger] pending@[j] == unmet(self@[j].depends_on, after),
                forall|j: int|
                    i <= j < self@.len() ==> #[trigger] pending@[j] == unmet(
                        self@[j].depends_on,
                        done,
                    ),
            decreases self.nodes.len() - i,
        {
            let ghost deps = self@[i as int].depends_on;
            let node = &self.nodes[i];
            let mut left: usize = pending[i];
            let mut k: usize = 0;
            proof {
                assert(deps.take(0) =~= Seq::<Seq<char>>::empty());
            }
            while k < node.depends_on.len()
                invariant
                    k <= node.depends_on.len(),
                    i < self.nodes.len(),
                    emitted < self@.len(),
                    *node == self.nodes@[i as int],
                    deps == self@[i as int].depends_on,
                    x == self@[emitted as int].name,
                    !done.contains(x),
                    left + occurrences(deps.take(k as int), x) == unmet(deps, done),
                decreases node.depends_on.len() - k,
            {
                proof {
                    lemma_unmet_after(deps, done, x, k + 1);
                    assert(deps.take(k + 1).drop_last() =~= deps.take(k as int));
                    assert(deps.take(k + 1).last() == node.depends_on@[k as int]@);
                }
                if node.depends_on[k] == self.nodes[emitted].name {
                    left = left - 1;
                }
                k += 1;
            }
            proof {
                assert(deps.take(deps.len() as int) =~= deps);
                lemma_unmet_prefix(deps, done, x);
            }
            pending.set(i, left);
            i += 1;
        }
    }

    /// The node to emit next: the ready node whose name sorts first.
    fn next_ready(
        &self,
        flags: &Vec<bool>,
        pending: &Vec<usize>,
        Ghost(done): Ghost<Seq<Seq<char>>>,
    ) -> (r: Option<usize>)
        requires
            tracks(self@, flags@, pending@, done),
        ensures
            match r {
                Some(b) => is_next_at(self@, done, b as int),
                None => forall|i: int| !ready(self@, done, i),
            },
    {
        let mut best: Option<usize> = None;
        let mut i: usize = 0;
        while i < self.nodes.len()
            invariant
                i <= self.nodes.len(),
                tracks(self@, flags@, pending@, done),
                match best {
                    Some(b) => b < i && ready(self@, done, b as int) && forall|j: int|
                        0 <= j < i && #[trigger] ready(self@, done, j) ==> !name_before(
                            self@[j].name,
                            self@[b as int].name,
                        ),
                    None => forall|j: int| 0 <= j < i ==> !#[trigger] ready(self@, done, j),
                },
            decreases self.nodes.len() - i,
        {
            proof {
                lemma_unmet_zero(self@[i as int].depends_on, done);
            }
            if !flags[i] && pending[i] == 0 {
                assert(ready(self@, done, i as int));
                match best {
                    Some(b) => {
                        if sorts_before(&self.nodes[i].name, &self.nodes[b].name) {
                            assert forall|j: int|
                                0 <= j < i + 1 && #[trigger] ready(
                                    self@,
                                    done,
                                    j,
                                ) implies !name_before(self@[j].name, self@[i as int].name) by {
                                lemma_byte_order_reflexive(encode_utf8(self@[i as int].name));
                                if name_before(self@[j].name, self@[i as int].name) {
                                    if j < i {
                                        lemma_name_before_transitive(
                                            self@[j].name,
                                            self@[i as int].name,
                                            self@[b as int].name,
                                        );
                                    }
                                }
                            }
                            best = Some(i);
                        }
                    },
                    None => {
                        assert forall|j: int|
                            0 <= j < i + 1 && #[trigger] ready(
                                self@,
                                done,
                                j,
                            ) implies !name_before(self@[j].name, self@[i as int].name) by {
                            lemma_byte_order_reflexive(encode_utf8(self@[i as int].name));
                        }
                        best = Some(i);
                    },
                }
            } else {
                assert(!ready(self@, done, i as int));
            }
            i += 1;
        }
        best
    }

    /// Orders the components for installation.
    ///
    /// Every component has a count of its dependencies that are not emitted
    /// yet. A component is ready when its count is zero; of the ready
    /// components the one whose name sorts first is emitted next, and the
    /// counts of the components that depend on it go down. When every
    /// component can be installed, the result is that order. When some
    /// cannot, the result is the error that names them, and no order.
    pub fn resolve(&self) -> (r: Result<Vec<String>, DependencyCycleError>)
        requires
            self.wf(),
        ensures
            match r {
                Ok(order) => {
                    &&& unresolved(self@).len() == 0
                    &&& order.len() == self@.len()
                    &&& is_resolution(self@, order.deep_view())
                },
                Err(e) => {
                    &&& unresolved(self@).len() > 0
                    &&& e.unresolved.deep_view() == unresolved(self@)
                },
            },
    {
        let n = self.nodes.len();
        let mut flags: Vec<bool> = Vec::new();
        while flags.len() < n
            invariant
                flags.len() <= n,
                forall|i: int| 0 <= i < flags.len() ==> !flags[i],
            decreases n - flags.len(),
        {
            flags.push(false);
        }
        let mut pending = self.dependency_counts();
        let mut order: Vec<String> = Vec::new();
        proof {
            lemma_count_set_zero(flags@);
            assert(order.deep_view() =~= Seq::<Seq<char>>::empty());
        }
        loop
            invariant_except_break
                self.wf(),
                n == self@.len(),
                tracks(self@, flags@, pending@, order.deep_view()),
                order.len() == count_set(flags@),
                is_resolution(self@, order.deep_view()),
                forall|p: int|
                    0 <= p < order.len() ==> resolvable(self@, #[trigger] order.deep_view()[p]),
            ensures
                self.wf(),
                n == self@.len(),
                tracks(self@, flags@, pending@, order.deep_view()),
                order.len() == count_set(flags@),
                is_resolution(self@, order.deep_view()),
                forall|p: int|
                    0 <= p < order.len() ==> resolvable(self@, #[trigger] order.deep_view()[p]),
                forall|i: int| !ready(self@, order.deep_view(), i),
            decreases n - order.len(),
        {
            let ghost done = order.deep_view();
            proof {
                lemma_count_set_bound(flags@);
            }
            if order.len() >= n {
                assert forall|i: int| !ready(self@, done, i) by {
                    if 0 <= i < n {
                        assert(flags@[i]);
                    }
                }
                break ;
            }
            match self.next_ready(&flags, &pending, Ghost(done)) {
                None => {
                    break ;
                },
                Some(b) => {
                    let name = self.nodes[b].name.clone();
                    proof {
                        lemma_ready_is_resolvable(self@, done, b as int);
                        lemma_count_set_update(flags@, b as int);
                    }
                    self.settle(b, &mut pending, Ghost(done));
                    flags.set(b, true);
                    order.push(name);
                    proof {
                        let after = order.deep_view();
                        let emitted = self@[b as int].name;
                        assert(after =~= done.push(emitted));
                        assert forall|i: int| 0 <= i < self@.len() implies (#[trigger] flags@[i]
                            <==> after.contains(self@[i].name)) by {
                            lemma_contains_push(done, emitted, self@[i].name);
                        }
                        assert forall|p: int| 0 <= p < after.len() implies is_next(
                            self@,
                            #[trigger] after.take(p),
                            after[p],
                        ) by {
                            if p < done.len() {
                                assert(after.take(p) =~= done.take(p));
                                assert(after[p] == done[p]);
                            } else {
                                assert(after.take(p) =~= done);
                                assert(is_next_at(self@, done, b as int));
                            }
                        }
                        assert forall|p: int| 0 <= p < after.len() implies resolvable(
                            self@,
                            #[trigger] after[p],
                        ) by {
                            if p < done.len() {
                                assert(after[p] == done[p]);
                            }
                        }
                    }
                },
            }
        }
        let ghost done = order.deep_view();
        let mut rest: Vec<String> = Vec::new();
        let mut i: usize = 0;
        while i < n
            invariant
                i <= n,
                n == self@.len(),
                n == self.nodes.len(),
                tracks(self@, flags@, pending@, done),
                forall|p: int| 0 <= p < done.len() ==> resolvable(self@, #[trigger] done[p]),
                forall|j: int| !ready(self@, done, j),
                rest.deep_view() == unresolved_prefix(self@, i as int),
                rest.len() == 0 <==> forall|j: int| 0 <= j < i ==> flags@[j],
            decreases n - i,
        {
            let ghost name = self@[i as int].name;
            if flags[i] {
                proof {
                    assert(done.contains(name));
                    let p = choose|p: int| 0 <= p < done.len() && done[p] == name;
                    assert(resolvable(self@, done[p]));
                }
            } else {
                proof {
                    assert(!done.contains(name));
                    assert forall|depth: nat| !resolvable_within(self@, name, depth) by {
                        lemma_stuck_unresolvable(self@, done, name, depth);
                    }
                }
                let ghost before = rest.deep_view();
                rest.push(self.nodes[i].name.clone());
                assert(rest.deep_view() =~= before.push(name));
            }
            i += 1;
        }
        if rest.len() == 0 {
            proof {
                lemma_count_set_all(flags@);
            }
            Ok(order)
        } else {
            Err(DependencyCycleError { unresolved: rest })
        }
    }
}

proof fn lemma_count_set_zero(flags: Seq<bool>)
    requires
        forall|i: int| 0 <= i < flags.len() ==> !flags[i],
    ensures
        count_set(flags) == 0,
    decreases flags.len(),
{
    if flags.len() > 0 {
        assert forall|i: int| 0 <= i < flags.drop_last().len() implies !flags.drop_last()[i] by {
            assert(flags.drop_last()[i] == flags[i]);
        }
        lemma_count_set_zero(flags.drop_last());
    }
}

proof fn lemma_count_set_all(flags: Seq<bool>)
    requires
        forall|i: int| 0 <= i < flags.len() ==> flags[i],
    ensures
        count_set(flags) == flags.len(),
    decreases flags.len(),
{
    if flags.len() > 0 {
        assert forall|i: int| 0 <= i < flags.drop_last().len() implies flags.drop_last()[i] by {
            assert(flags.drop_last()[i] == flags[i]);
        }
        lemma_count_set_all(flags.drop_last());
    }
}

/// In a resolution every component comes after all that it depends on:
/// each dependency of the component at position `p` stands before `p`.
pub proof fn lemma_dependencies_first(
    g: Seq<NodeModel>,
    order: Seq<Seq<char>>,
    p: int,
    i: int,
    k: int,
)
    requires
        distinct_names(g),
        is_resolution(g, order),
        0 <= p < order.len(),
        0 <= i < g.len(),
        g[i].name == order[p],
        0 <= k < g[i].depends_on.len(),
    ensures
        exists|q: int| 0 <= q < p && order[q] == g[i].depends_on[k],
{
    let done = order.take(p);
    assert(is_next(g, done, order[p]));
    let j = choose|j: int| #[trigger] is_next_at(g, done, j) && g[j].name == order[p];
    assert(j == i) by {
        if j < i {
            assert(g[j].name != g[i].name);
        } else if i < j {
            assert(g[i].name != g[j].name);
        }
    }
    assert(done.contains(g[i].depends_on[k]));
    let q = choose|q: int| 0 <= q < done.len() && done[q] == g[i].depends_on[k];
    assert(order[q] == done[q]);
}

/// A resolution names no component twice, and only declared components.
pub proof fn lemma_resolution_is_injective(g: Seq<NodeModel>, order: Seq<Seq<char>>)
    requires
        is_resolution(g, order),
    ensures
        order.no_duplicates(),
        forall|p: int| 0 <= p < order.len() ==> has_node(g, #[trigger] order[p]),
{
    assert forall|p: int| 0 <= p < order.len() implies has_node(g, #[trigger] order[p]) by {
        assert(is_next(g, order.take(p), order[p]));
    }
    assert forall|p: int, q: int|
        0 <= p < order.len() && 0 <= q < order.len() && p != q implies order[p] != order[q] by {
        let (lo, hi) = if p < q {
            (p, q)
        } else {
            (q, p)
        };
        assert(is_next(g, order.take(hi), order[hi]));
        assert(order.take(hi)[lo] == order[lo]);
    }
}

/// The resolution of a graph is unique: two resolutions of the same length
/// are the same order. Resolving the same graph again gives the same result.
pub proof fn lemma_resolution_unique(g: Seq<NodeModel>, a: Seq<Seq<char>>, b: Seq<Seq<char>>)
    requires
        is_resolution(g, a),
        is_resolution(g, b),
        a.len() == b.len(),
    ensures
        a == b,
{
    lemma_resolution_prefix_unique(g, a, b, a.len() as int);
    assert(a.take(a.len() as int) =~= a);
    assert(b.take(b.len() as int) =~= b);
}

proof fn lemma_resolution_prefix_unique(
    g: Seq<NodeModel>,
    a: Seq<Seq<char>>,
    b: Seq<Seq<char>>,
    m: int,
)
    requires
        is_resolution(g, a),
        is_resolution(g, b),
        0 <= m <= a.len(),
        m <= b.len(),
    ensures
        a.take(m) == b.take(m),
    decreases m,
{
    if m == 0 {
        assert(a.take(0) =~= b.take(0));
    } else {
        lemma_resolution_prefix_unique(g, a, b, m - 1);
        let done = a.take(m - 1);
        assert(is_next(g, done, a[m - 1]));
        assert(is_next(g, b.take(m - 1), b[m - 1]));
        let i = choose|i: int| #[trigger] is_next_at(g, done, i) && g[i].name == a[m - 1];
        let j = choose|j: int| #[trigger] is_next_at(g, done, j) && g[j].name == b[m - 1];
        let x = encode_utf8(g[i].name);
        let y = encode_utf8(g[j].name);
        lemma_byte_order_antisymmetric(x, y);
        lemma_byte_order_zero(x, y);
        encode_utf8_decode_utf8(g[i].name);
        encode_utf8_decode_utf8(g[j].name);
        assert(a[m - 1] == b[m - 1]);
        assert(a.take(m) =~= a.take(m - 1).push(a[m - 1]));
        assert(b.take(m) =~= b.take(m - 1).push(b[m - 1]));
    }
}

proof fn lemma_unresolved_prefix(g: Seq<NodeModel>, k: int)
    requires
        0 <= k <= g.len(),
    ensures
        unresolved_prefix(g, k).len() > 0 <==> exists|i: int|
            0 <= i < k && !resolvable(g, (#[trigger] g[i]).name),
    decreases k,
{
    if k > 0 {
        lemma_unresolved_prefix(g, k - 1);
        if exists|i: int| 0 <= i < k && !resolvable(g, (#[trigger] g[i]).name) {
            let i = choose|i: int| 0 <= i < k && !resolvable(g, (#[trigger] g[i]).name);
            if i < k - 1 {
                assert(unresolved_prefix(g, k - 1).len() > 0);
            }
        }
        if unresolved_prefix(g, k).len() > 0 {
            if resolvable(g, g[k - 1].name) {
                let i = choose|i: int| 0 <= i < k - 1 && !resolvable(g, (#[trigger] g[i]).name);
                assert(0 <= i < k && !resolvable(g, g[i].name));
            } else {
                assert(0 <= k - 1 < k && !resolvable(g, g[k - 1].name));
            }
        }
    }
}

/// A graph has unresolved components exactly when one of its components
/// cannot be installed.
pub proof fn lemma_unresolved(g: Seq<NodeModel>)
    ensures
        unresolved(g).len() > 0 <==> exists|i: int|
            0 <= i < g.len() && !resolvable(g, (#[trigger] g[i]).name),
{
    lemma_unresolved_prefix(g, g.len() as int);
}

proof fn lemma_on_cycle_unresolvable(
    g: Seq<NodeModel>,
    path: Seq<Seq<char>>,
    p: int,
    depth: nat,
)
    requires
        distinct_names(g),
        is_cycle(g, path),
        0 <= p < path.len() - 1,
    ensures
        !resolvable_within(g, path[p], depth),
    decreases depth,
{
    if resolvable_within(g, path[p], depth) {
        let i = choose|i: int|
            0 <= i < g.len() && (#[trigger] g[i]).name == path[p] && forall|k: int|
                0 <= k < g[i].depends_on.len() ==> resolvable_within(
                    g,
                    #[trigger] g[i].depends_on[k],
                    (depth - 1) as nat,
                );
        assert(has_edge(g, path[p], path[p + 1]));
        let (j, k) = choose|j: int, k: int|
            0 <= j < g.len() && 0 <= k < g[j].depends_on.len() && (#[trigger] g[j]).name == path[p]
                && #[trigger] g[j].depends_on[k] == path[p + 1];
        assert(i == j) by {
            if i < j {
                assert(g[i].name != g[j].name);
            } else if j < i {
                assert(g[j].name != g[i].name);
            }
        }
        assert(resolvable_within(g, g[i].depends_on[k], (depth - 1) as nat));
        let next = if p + 1 < path.len() - 1 {
            p + 1
        } else {
            0
        };
        assert(path[next] == path[p + 1]);
        lemma_on_cycle_unresolvable(g, path, next, (depth - 1) as nat);
    }
}

/// A graph with a dependency cycle has unresolved components: resolving it
/// fails, and gives no order.
pub proof fn lemma_cycle_is_unresolved(g: Seq<NodeModel>)
    requires
        distinct_names(g),
        has_cycle(g),
    ensures
        unresolved(g).len() > 0,
{
    let path = choose|path: Seq<Seq<char>>| is_cycle(g, path);
    assert(has_edge(g, path[0], path[1]));
    let (i, k) = choose|i: int, k: int|
        0 <= i < g.len() && 0 <= k < g[i].depends_on.len() && (#[trigger] g[i]).name == path[0]
            && #[trigger] g[i].depends_on[k] == path[1];
    assert forall|depth: nat| !resolvable_within(g, path[0], depth) by {
        lemma_on_cycle_unresolvable(g, path, 0, depth);
    }
    assert(0 <= i < g.len() && !resolvable(g, g[i].name));
    lemma_unresolved(g);
}

/// From a component that cannot be installed, a walk of any length along
/// dependencies, all of them declared and none of them installable.
proof fn lemma_unresolvable_walk(g: Seq<NodeModel>, n: Seq<char>, steps: nat) -> (path: Seq<
    Seq<char>,
>)
    requires
        closed(g),
        has_node(g, n),
        !resolvable(g, n),
    ensures
        path.len() == steps + 1,
        path[0] == n,
        forall|p: int| 0 <= p < steps ==> has_edge(g, #[trigger] path[p], path[p + 1]),
        forall|p: int| 0 <= p <= steps ==> has_node(g, #[trigger] path[p]),
    decreases steps,
{
    if steps == 0 {
        seq![n]
    } else {
        let i = choose|i: int| 0 <= i < g.len() && (#[trigger] g[i]).name == n;
        let deps = g[i].depends_on;
        if forall|k: int| 0 <= k < deps.len() ==> resolvable(g, #[trigger] deps[k]) {
            let d = lemma_common_depth(g, deps, deps.len() as int);
            assert(resolvable_within(g, n, d + 1));
        }
        let k = choose|k: int| 0 <= k < deps.len() && !resolvable(g, #[trigger] deps[k]);
        assert(has_node(g, g[i].depends_on[k]));
        let rest = lemma_unresolvable_walk(g, deps[k], (steps - 1) as nat);
        let path = seq![n] + rest;
        assert forall|p: int| 0 <= p < steps implies has_edge(g, #[trigger] path[p], path[p + 1]) by {
            if p == 0 {
                assert(path[1] == rest[0]);
                assert(g[i].name == n && g[i].depends_on[k] == path[1]);
            } else {
                assert(path[p] == rest[p - 1]);
                assert(path[p + 1] == rest[p]);
            }
        }
        assert forall|p: int| 0 <= p <= steps implies has_node(g, #[trigger] path[p]) by {
            if p > 0 {
                assert(path[p] == rest[p - 1]);
            }
        }
        path
    }
}

/// More names than a graph declares cannot all be different declared names.
proof fn lemma_walk_repeats(g: Seq<NodeModel>, path: Seq<Seq<char>>) -> (r: (int, int))
    requires
        path.len() > g.len(),
        forall|p: int| 0 <= p < path.len() ==> has_node(g, #[trigger] path[p]),
    ensures
        0 <= r.0 < r.1 < path.len(),
        path[r.0] == path[r.1],
{
    let names = g.map_values(|node: NodeModel| node.name);
    if path.no_duplicates() {
        path.unique_seq_to_set();
        names.lemma_cardinality_of_set();
        assert(path.to_set().subset_of(names.to_set())) by {
            assert forall|x: Seq<char>| path.to_set().contains(x) implies names.to_set().contains(
                x,
            ) by {
                let p = choose|p: int| 0 <= p < path.len() && path[p] == x;
                assert(has_node(g, path[p]));
                let i = choose|i: int| 0 <= i < g.len() && (#[trigger] g[i]).name == x;
                assert(names[i] == x);
            }
        }
        vstd::seq_lib::seq_to_set_is_finite(names);
        vstd::set_lib::lemma_len_subset(path.to_set(), names.to_set());
        assert(false);
    }
    let (a, b) = choose|a: int, b: int|
        0 <= a < path.len() && 0 <= b < path.len() && a != b && path[a] == path[b];
    if a < b {
        (a, b)
    } else {
        (b, a)
    }
}

/// A graph without a dependency cycle, in which every dependency is
/// declared, has no unresolved components: resolving it gives an order.
pub proof fn lemma_acyclic_is_resolved(g: Seq<NodeModel>)
    requires
        distinct_names(g),
        closed(g),
        !has_cycle(g),
    ensures
        unresolved(g).len() == 0,
{
    lemma_unresolved(g);
    if unresolved(g).len() > 0 {
        let i = choose|i: int| 0 <= i < g.len() && !resolvable(g, (#[trigger] g[i]).name);
        let path = lemma_unresolvable_walk(g, g[i].name, g.len());
        let (a, b) = lemma_walk_repeats(g, path);
        let cycle = path.subrange(a, b + 1);
        assert forall|p: int| 0 <= p < cycle.len() - 1 implies has_edge(
            g,
            #[trigger] cycle[p],
            cycle[p + 1],
        ) by {
            assert(cycle[p] == path[a + p]);
            assert(cycle[p + 1] == path[a + p + 1]);
            assert(has_edge(g, path[a + p], path[a + p + 1]));
        }
        assert(is_cycle(g, cycle));
    }
}

} // verus!
