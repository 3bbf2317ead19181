//! The dependencies between interfaces: which interface has handles of
//! which among the arguments of its messages, and which interface so leads to
//! which.

use crate::graph::{
    is_walk, lemma_reaches_itself, lemma_reaches_on, reached, reaches, steps, walkable, within,
    DependencyKind, Edge,
};
use crate::protocol::{Arg, ArgKind, ArgView, Interface, InterfaceView, Message, MessageView};
use crate::text::same_text;
use vstd::prelude::*;

verus! {

/// One use of an interface by another: a message of `from` has an argument
/// that is a handle of `to`.
pub struct Dep {
    pub from: Seq<char>,
    pub to: Seq<char>,
    pub kind: DependencyKind,
}

/// The dependency that one argument of a message of `from` makes: a handle of
/// a new object makes a strong one, a handle of an existing object a weak one,
/// if the argument names the interface and that is another than `from`.
pub open spec fn arg_dep(from: Seq<char>, arg: ArgView) -> Option<Dep> {
    match arg.interface {
        Some(to) => if to == from {
            None
        } else if arg.kind == ArgKind::NewId {
            Some(Dep { from, to, kind: DependencyKind::Strong })
        } else if arg.kind == ArgKind::ObjectId {
            Some(Dep { from, to, kind: DependencyKind::Weak })
        } else {
            None
        },
        None => None,
    }
}

/// The dependencies that a list of arguments makes, in their order.
pub open spec fn args_deps(from: Seq<char>, args: Seq<ArgView>) -> Seq<Dep>
    decreases args.len(),
{
    if args.len() == 0 {
        Seq::empty()
    } else {
        args_deps(from, args.drop_last()) + match arg_dep(from, args.last()) {
            Some(dep) => seq![dep],
            None => Seq::empty(),
        }
    }
}

/// The dependencies that a list of messages makes, in their order.
pub open spec fn messages_deps(from: Seq<char>, messages: Seq<MessageView>) -> Seq<Dep>
    decreases messages.len(),
{
    if messages.len() == 0 {
        Seq::empty()
    } else {
        messages_deps(from, messages.drop_last()) + args_deps(from, messages.last().args)
    }
}

/// The dependencies that a list of interfaces makes: of each interface those
/// of its requests, then those of its events.
pub open spec fn all_deps(interfaces: Seq<InterfaceView>) -> Seq<Dep>
    decreases interfaces.len(),
{
    if interfaces.len() == 0 {
        Seq::empty()
    } else {
        let last = interfaces.last();
        all_deps(interfaces.drop_last()) + messages_deps(last.name, last.requests)
            + messages_deps(last.name, last.events)
    }
}

/// Whether the dependencies hold one of `from` on `to`; with `strong_only`, a
/// strong one.
pub open spec fn listed(deps: Seq<Dep>, from: Seq<char>, to: Seq<char>, strong_only: bool) -> bool {
    exists|k: int|
        0 <= k < deps.len() && (#[trigger] deps[k]).from == from && deps[k].to == to && (strong_only
            ==> deps[k].kind == DependencyKind::Strong)
}

/// The dependency graph: the interfaces by name, each with a number, and the
/// dependencies between them, at most one for each pair, which is strong if
/// any use is.
#[derive(Debug)]
pub struct Graph {
    pub names: Vec<String>,
    pub edges: Vec<Edge>,
}

/// Whether the texts are all different.
pub open spec fn distinct(names: Seq<Seq<char>>) -> bool {
    forall|i: int, j: int| 0 <= i < j < names.len() ==> names[i] != names[j]
}

impl Graph {
    /// The names of the interfaces; the place of a name is its number.
    pub open spec fn names(&self) -> Seq<Seq<char>> {
        self.names.deep_view()
    }

    /// No name is there twice, the edges are between numbers that have names,
    /// no edge is from an interface to itself, and no two edges are between
    /// the same pair.
    pub open spec fn wf(&self) -> bool {
        &&& distinct(self.names())
        &&& within(self.edges@, self.names().len() as int)
        &&& forall|k: int| 0 <= k < self.edges@.len() ==> (#[trigger] self.edges@[k]).from != self.edges@[k].to
        &&& forall|j: int, k: int|
            0 <= j < k < self.edges@.len() ==> !((#[trigger] self.edges@[j]).from == (
            #[trigger] self.edges@[k]).from && self.edges@[j].to == self.edges@[k].to)
    }

    /// Whether the graph has an edge from the interface `from` to the
    /// interface `to`; with `strong_only`, a strong one.
    pub open spec fn has(&self, from: Seq<char>, to: Seq<char>, strong_only: bool) -> bool {
        exists|k: int|
            0 <= k < self.edges@.len() && self.names()[(#[trigger] self.edges@[k]).from as int]
                == from && self.names()[self.edges@[k].to as int] == to && walkable(
                self.edges@[k],
                strong_only,
            )
    }

    /// Whether the graph's edges are those that the dependencies make.
    pub open spec fn represents(&self, deps: Seq<Dep>) -> bool {
        forall|from: Seq<char>, to: Seq<char>, strong_only: bool|
            #[trigger] self.has(from, to, strong_only) <==> listed(deps, from, to, strong_only)
    }

    /// Whether `name` has a number.
    pub open spec fn knows(&self, name: Seq<char>) -> bool {
        exists|i: int| 0 <= i < self.names().len() && #[trigger] self.names()[i] == name
    }
}

/// The place of a name among the names.
pub fn find_name(names: &Vec<String>, name: &str) -> (place: Option<usize>)
    ensures
        match place {
            Some(i) => i < names@.len() && names.deep_view()[i as int] == name@,
            None => forall|i: int| 0 <= i < names@.len() ==> names.deep_view()[i] != name@,
        },
{
    let mut i: usize = 0;
    while i < names.len()
        invariant
            i <= names@.len(),
            forall|k: int| 0 <= k < i ==> names.deep_view()[k] != name@,
        decreases names@.len() - i,
    {
        if same_text(names[i].as_str(), name) {
            return Some(i);
        }
        i += 1;
    }
    None
}

impl Graph {
    /// A graph of no interfaces.
    pub fn new() -> (graph: Graph)
        ensures
            graph.wf(),
            graph.names().len() == 0,
            graph.edges@.len() == 0,
    {
        Graph { names: Vec::new(), edges: Vec::new() }
    }

    /// The number of the interface `name`, which gets the next number if it
    /// has none.
    pub fn intern(&mut self, name: &str) -> (number: usize)
        requires
            old(self).wf(),
        ensures
            final(self).wf(),
            final(self).edges@ == old(self).edges@,
            number < final(self).names().len(),
            final(self).names()[number as int] == name@,
            old(self).names().len() <= final(self).names().len() <= old(self).names().len() + 1,
            final(self).names().subrange(0, old(self).names().len() as int) == old(self).names(),
            old(self).knows(name@) ==> final(self).names() == old(self).names(),
    {
        match find_name(&self.names, name) {
            Some(number) => {
                assert(self.names().subrange(0, self.names().len() as int) =~= self.names());
                number
            },
            None => {
                let number: usize = self.names.len();
                self.names.push(name.to_owned());
                assert(self.names().subrange(0, number as int) =~= old(self).names());
                assert(self.names()[number as int] == name@);
                assert forall|i: int, j: int| 0 <= i < j < self.names().len() implies self.names()[i]
                    != self.names()[j] by {
                    if j < number {
                        assert(self.names()[i] == old(self).names()[i]);
                        assert(self.names()[j] == old(self).names()[j]);
                    } else {
                        assert(self.names()[i] == old(self).names()[i]);
                    }
                }
                number
            },
        }
    }

    /// Takes note of a dependency of the interface `from` on the interface
    /// `to`. An edge that is there already stays, and becomes strong if the
    /// dependency is.
    pub fn connect(&mut self, from: usize, to: usize, kind: DependencyKind)
        requires
            old(self).wf(),
            from < old(self).names().len(),
            to < old(self).names().len(),
            from != to,
        ensures
            final(self).wf(),
            final(self).names == old(self).names,
            forall|a: Seq<char>, b: Seq<char>, strong_only: bool|
                #[trigger] final(self).has(a, b, strong_only) <==> old(self).has(a, b, strong_only)
                    || (a == old(self).names()[from as int] && b == old(self).names()[to as int]
                    && (strong_only ==> kind == DependencyKind::Strong)),
    {
        let ghost names = self.names();
        let mut k: usize = 0;
        while k < self.edges.len()
            invariant
                k <= self.edges@.len(),
                *self == *old(self),
                old(self).wf(),
                names == old(self).names(),
                from < names.len(),
                to < names.len(),
                from != to,
                forall|j: int|
                    0 <= j < k ==> !((#[trigger] self.edges@[j]).from == from && self.edges@[j].to
                        == to),
            decreases self.edges@.len() - k,
        {
            let edge: Edge = self.edges[k];
            if edge.from == from && edge.to == to {
                let stronger: DependencyKind = match kind {
                    DependencyKind::Strong => DependencyKind::Strong,
                    DependencyKind::Weak => edge.kind,
                };
                let ghost before = self.edges@;
                self.edges.set(k, Edge { from, to, kind: stronger });
                proof {
                    let after = self.edges@;
                    assert(before == old(self).edges@);
                    assert(self.names() == names);
                    assert forall|a: Seq<char>, b: Seq<char>, strong_only: bool| #[trigger]
                        self.has(a, b, strong_only) <==> old(self).has(a, b, strong_only) || (a
                            == names[from as int] && b == names[to as int] && (strong_only ==> kind
                            == DependencyKind::Strong)) by {
                        if self.has(a, b, strong_only) {
                            let j = choose|j: int|
                                0 <= j < after.len() && names[(#[trigger] after[j]).from as int]
                                    == a && names[after[j].to as int] == b && walkable(
                                    after[j],
                                    strong_only,
                                );
                            if j != k {
                                assert(before[j] == after[j]);
                            } else if !(strong_only ==> kind == DependencyKind::Strong) {
                                assert(walkable(before[k as int], strong_only));
                            }
                        }
                        if old(self).has(a, b, strong_only) {
                            let j = choose|j: int|
                                0 <= j < before.len() && names[(#[trigger] before[j]).from as int]
                                    == a && names[before[j].to as int] == b && walkable(
                                    before[j],
                                    strong_only,
                                );
                            if j != k {
                                assert(before[j] == after[j]);
                            }
                            assert(walkable(after[j], strong_only));
                        }
                        if a == names[from as int] && b == names[to as int] && (strong_only ==> kind
                            == DependencyKind::Strong) {
                            assert(walkable(after[k as int], strong_only));
                        }
                    }
                    assert forall|i: int, j: int| 0 <= i < j < after.len() implies !((
                    #[trigger] after[i]).from == (#[trigger] after[j]).from && after[i].to
                        == after[j].to) by {
                        assert(before[i].from == after[i].from && before[i].to == after[i].to);
                        assert(before[j].from == after[j].from && before[j].to == after[j].to);
                    }
                    assert forall|j: int| 0 <= j < after.len() implies (#[trigger] after[j]).from
                        != after[j].to by {
                        assert(before[j].from == after[j].from && before[j].to == after[j].to);
                    }
                    assert forall|j: int| 0 <= j < after.len() implies (#[trigger] after[j]).from
                        < names.len() && after[j].to < names.len() by {
                        assert(before[j].from == after[j].from && before[j].to == after[j].to);
                    }
                }
                return ;
            }
            k += 1;
        }
        self.edges.push(Edge { from, to, kind });
        proof {
            let before = old(self).edges@;
            let after = self.edges@;
            let last = before.len() as int;
            assert forall|a: Seq<char>, b: Seq<char>, strong_only: bool| #[trigger]
                self.has(a, b, strong_only) <==> old(self).has(a, b, strong_only) || (a
                    == names[from as int] && b == names[to as int] && (strong_only ==> kind
                    == DependencyKind::Strong)) by {
                if self.has(a, b, strong_only) {
                    let j = choose|j: int|
                        0 <= j < after.len() && names[(#[trigger] after[j]).from as int] == a
                            && names[after[j].to as int] == b && walkable(after[j], strong_only);
                    if j != last {
                        assert(before[j] == after[j]);
                    }
                }
                if old(self).has(a, b, strong_only) {
                    let j = choose|j: int|
                        0 <= j < before.len() && names[(#[trigger] before[j]).from as int] == a
                            && names[before[j].to as int] == b && walkable(before[j], strong_only);
                    assert(before[j] == after[j]);
                }
                if a == names[from as int] && b == names[to as int] && (strong_only ==> kind
                    == DependencyKind::Strong) {
                    assert(walkable(after[last], strong_only));
                }
            }
            assert forall|i: int, j: int| 0 <= i < j < after.len() implies !((
            #[trigger] after[i]).from == (#[trigger] after[j]).from && after[i].to
                == after[j].to) by {
                assert(before[i] == after[i]);
                if j < last {
                    assert(before[j] == after[j]);
                }
            }
        }
    }
}

/// One more dependency is listed besides those that were.
pub proof fn lemma_listed_push(deps: Seq<Dep>, dep: Dep, from: Seq<char>, to: Seq<char>, strong_only: bool)
    ensures
        listed(deps.push(dep), from, to, strong_only) <==> listed(deps, from, to, strong_only) || (
        dep.from == from && dep.to == to && (strong_only ==> dep.kind == DependencyKind::Strong)),
{
    let longer = deps.push(dep);
    if listed(longer, from, to, strong_only) {
        let k = choose|k: int|
            0 <= k < longer.len() && (#[trigger] longer[k]).from == from && longer[k].to == to && (
            strong_only ==> longer[k].kind == DependencyKind::Strong);
        if k < deps.len() {
            assert(deps[k] == longer[k]);
        }
    }
    if listed(deps, from, to, strong_only) {
        let k = choose|k: int|
            0 <= k < deps.len() && (#[trigger] deps[k]).from == from && deps[k].to == to && (
            strong_only ==> deps[k].kind == DependencyKind::Strong);
        assert(deps[k] == longer[k]);
    }
    if dep.from == from && dep.to == to && (strong_only ==> dep.kind == DependencyKind::Strong) {
        assert(longer[deps.len() as int] == dep);
    }
}

impl Graph {
    /// The graph has the names of `before` at their places, and may have more.
    pub open spec fn extends(&self, before: &Graph) -> bool {
        &&& before.names().len() <= self.names().len()
        &&& self.names().subrange(0, before.names().len() as int) == before.names()
    }

    /// Takes note of the dependencies that the arguments of a message of the
    /// interface with the number `from` make.
    fn note_args(&mut self, from: usize, args: &Vec<Arg>, Ghost(deps): Ghost<Seq<Dep>>)
        requires
            old(self).wf(),
            from < old(self).names().len(),
            old(self).represents(deps),
        ensures
            final(self).wf(),
            final(self).extends(old(self)),
            final(self).represents(
                deps + args_deps(old(self).names()[from as int], args.deep_view()),
            ),
    {
        let ghost name = self.names()[from as int];
        let ghost all = args.deep_view();
        let mut i: usize = 0;
        assert(deps + args_deps(name, all.take(0)) =~= deps);
        assert(self.names().subrange(0, self.names().len() as int) =~= self.names());
        while i < args.len()
            invariant
                i <= args@.len(),
                all == args.deep_view(),
                self.wf(),
                self.extends(old(self)),
                from < old(self).names().len(),
                name == old(self).names()[from as int],
                self.represents(deps + args_deps(name, all.take(i as int))),
            decreases args@.len() - i,
        {
            let arg: &Arg = &args[i];
            let ghost before = *self;
            let ghost so_far = deps + args_deps(name, all.take(i as int));
            proof {
                assert(all.take(i + 1).drop_last() =~= all.take(i as int));
                assert(all.take(i + 1).last() == arg.deep_view());
                assert(self.names()[from as int] == self.names().subrange(
                    0,
                    old(self).names().len() as int,
                )[from as int]);
            }
            let kind: Option<DependencyKind> = match arg.kind {
                ArgKind::NewId => Some(DependencyKind::Strong),
                ArgKind::ObjectId => Some(DependencyKind::Weak),
                _ => None,
            };
            match (&arg.interface, kind) {
                (Some(target), Some(kind)) => {
                    if !same_text(target.as_str(), self.names[from].as_str()) {
                        let to: usize = self.intern(target.as_str());
                        let ghost interned = *self;
                        proof {
                            assert(self.names()[from as int] == self.names().subrange(
                                0,
                                before.names().len() as int,
                            )[from as int]);
                            lemma_same_edges(before, interned);
                        }
                        self.connect(from, to, kind);
                        proof {
                            let dep = Dep { from: name, to: target@, kind };
                            assert(arg_dep(name, arg.deep_view()) == Some(dep));
                            assert(deps + args_deps(name, all.take(i + 1)) =~= so_far.push(dep));
                            assert forall|a: Seq<char>, b: Seq<char>, strong_only: bool| #[trigger]
                                self.has(a, b, strong_only) <==> listed(
                                    so_far.push(dep),
                                    a,
                                    b,
                                    strong_only,
                                ) by {
                                lemma_listed_push(so_far, dep, a, b, strong_only);
                                assert(interned.has(a, b, strong_only) == before.has(
                                    a,
                                    b,
                                    strong_only,
                                ));
                            }
                            assert(self.names().subrange(0, old(self).names().len() as int)
                                =~= old(self).names()) by {
                                assert(interned.names().subrange(0, before.names().len() as int)
                                    == before.names());
                                assert forall|k: int| 0 <= k < old(self).names().len() implies
                                    self.names()[k] == old(self).names()[k] by {
                                    assert(before.names()[k] == before.names().subrange(
                                        0,
                                        old(self).names().len() as int,
                                    )[k]);
                                    assert(interned.names()[k] == interned.names().subrange(
                                        0,
                                        before.names().len() as int,
                                    )[k]);
                                }
                            }
                        }
                    } else {
                        proof {
                            assert(arg_dep(name, arg.deep_view()) is None);
                            assert(deps + args_deps(name, all.take(i + 1)) =~= so_far);
                        }
                    }
                },
                _ => {
                    proof {
                        assert(arg_dep(name, arg.deep_view()) is None);
                        assert(deps + args_deps(name, all.take(i + 1)) =~= so_far);
                    }
                },
            }
            i += 1;
        }
        assert(all.take(i as int) =~= all);
    }

    /// Takes note of the dependencies that the messages of the interface with
    /// the number `from` make.
    fn note_messages(&mut self, from: usize, messages: &Vec<Message>, Ghost(deps): Ghost<Seq<Dep>>)
        requires
            old(self).wf(),
            from < old(self).names().len(),
            old(self).represents(deps),
        ensures
            final(self).wf(),
            final(self).extends(old(self)),
            final(self).represents(
                deps + messages_deps(old(self).names()[from as int], messages.deep_view()),
            ),
    {
        let ghost name = self.names()[from as int];
        let ghost all = messages.deep_view();
        let mut i: usize = 0;
        assert(deps + messages_deps(name, all.take(0)) =~= deps);
        assert(self.names().subrange(0, self.names().len() as int) =~= self.names());
        while i < messages.len()
            invariant
                i <= messages@.len(),
                all == messages.deep_view(),
                self.wf(),
                self.extends(old(self)),
                from < old(self).names().len(),
                name == old(self).names()[from as int],
                self.represents(deps + messages_deps(name, all.take(i as int))),
            decreases messages@.len() - i,
        {
            let ghost before = *self;
            let ghost so_far = deps + messages_deps(name, all.take(i as int));
            proof {
                assert(all.take(i + 1).drop_last() =~= all.take(i as int));
                assert(all.take(i + 1).last() == messages@[i as int].deep_view());
                assert(self.names()[from as int] == self.names().subrange(
                    0,
                    old(self).names().len() as int,
                )[from as int]);
            }
            self.note_args(from, &messages[i].args, Ghost(so_far));
            proof {
                assert(deps + messages_deps(name, all.take(i + 1)) =~= so_far + args_deps(
                    name,
                    messages@[i as int].deep_view().args,
                ));
                lemma_extends_on(*old(self), before, *self);
            }
            i += 1;
        }
        assert(all.take(i as int) =~= all);
    }
}

/// A graph with the same edges and more names has the same edges by name.
pub proof fn lemma_same_edges(before: Graph, after: Graph)
    requires
        before.wf(),
        after.extends(&before),
        after.edges@ == before.edges@,
    ensures
        forall|a: Seq<char>, b: Seq<char>, strong_only: bool|
            #[trigger] after.has(a, b, strong_only) == before.has(a, b, strong_only),
{
    let edges = before.edges@;
    assert forall|k: int| 0 <= k < edges.len() implies after.names()[(#[trigger] edges[k]).from as int]
        == before.names()[edges[k].from as int] && after.names()[edges[k].to as int]
        == before.names()[edges[k].to as int] by {
        assert(before.names()[edges[k].from as int] == after.names().subrange(
            0,
            before.names().len() as int,
        )[edges[k].from as int]);
        assert(before.names()[edges[k].to as int] == after.names().subrange(
            0,
            before.names().len() as int,
        )[edges[k].to as int]);
    }
    assert forall|a: Seq<char>, b: Seq<char>, strong_only: bool| #[trigger]
        after.has(a, b, strong_only) == before.has(a, b, strong_only) by {
        if after.has(a, b, strong_only) {
            let k = choose|k: int|
                0 <= k < edges.len() && after.names()[(#[trigger] edges[k]).from as int] == a
                    && after.names()[edges[k].to as int] == b && walkable(edges[k], strong_only);
            assert(before.names()[edges[k].from as int] == a);
        }
        if before.has(a, b, strong_only) {
            let k = choose|k: int|
                0 <= k < edges.len() && before.names()[(#[trigger] edges[k]).from as int] == a
                    && before.names()[edges[k].to as int] == b && walkable(edges[k], strong_only);
            assert(after.names()[edges[k].from as int] == a);
        }
    }
}

/// Names stay at their places as a graph gains names twice.
pub proof fn lemma_extends_on(first: Graph, second: Graph, third: Graph)
    requires
        second.extends(&first),
        third.extends(&second),
    ensures
        third.extends(&first),
{
    assert(third.names().subrange(0, first.names().len() as int) =~= first.names()) by {
        assert forall|k: int| 0 <= k < first.names().len() implies third.names()[k]
            == first.names()[k] by {
            assert(first.names()[k] == second.names().subrange(0, first.names().len() as int)[k]);
            assert(second.names()[k] == third.names().subrange(0, second.names().len() as int)[k]);
        }
    }
}

/// The dependency graph of a list of interfaces: every interface of the list
/// has a number, and so has every interface that one of them names in a
/// handle argument; the edges are the dependencies that the arguments make.
pub fn make_dependency_graph(interfaces: &Vec<Interface>) -> (graph: Graph)
    ensures
        graph.wf(),
        graph.represents(all_deps(interfaces.deep_view())),
        forall|i: int|
            0 <= i < interfaces@.len() ==> graph.knows(
                (#[trigger] interfaces.deep_view()[i]).name,
            ),
{
    let ghost all = interfaces.deep_view();
    let mut graph = Graph::new();
    let mut i: usize = 0;
    while i < interfaces.len()
        invariant
            i <= interfaces@.len(),
            all == interfaces.deep_view(),
            graph.wf(),
            graph.edges@.len() == 0,
            forall|k: int| 0 <= k < i ==> graph.knows((#[trigger] all[k]).name),
        decreases interfaces@.len() - i,
    {
        let ghost before = graph;
        let number: usize = graph.intern(interfaces[i].name.as_str());
        proof {
            assert forall|k: int| 0 <= k < i + 1 implies graph.knows((#[trigger] all[k]).name) by {
                if k < i {
                    lemma_still_known(before, graph, all[k].name);
                } else {
                    assert(graph.names()[number as int] == all[k].name);
                }
            }
        }
        i += 1;
    }
    assert(graph.represents(all_deps(all.take(0)))) by {
        assert(all_deps(all.take(0)) =~= Seq::<Dep>::empty());
    }
    let mut i: usize = 0;
    while i < interfaces.len()
        invariant
            i <= interfaces@.len(),
            all == interfaces.deep_view(),
            graph.wf(),
            graph.represents(all_deps(all.take(i as int))),
            forall|k: int| 0 <= k < all.len() ==> graph.knows((#[trigger] all[k]).name),
        decreases interfaces@.len() - i,
    {
        let interface: &Interface = &interfaces[i];
        let ghost first = graph;
        let ghost so_far = all_deps(all.take(i as int));
        proof {
            assert(all.take(i + 1).drop_last() =~= all.take(i as int));
            assert(all.take(i + 1).last() == interface.deep_view());
        }
        let from: usize = graph.intern(interface.name.as_str());
        let ghost second = graph;
        proof {
            lemma_same_edges(first, second);
        }
        graph.note_messages(from, &interface.requests, Ghost(so_far));
        let ghost third = graph;
        let ghost with_requests = so_far + messages_deps(
            interface.name@,
            interface.requests.deep_view(),
        );
        proof {
            assert(third.names()[from as int] == third.names().subrange(
                0,
                second.names().len() as int,
            )[from as int]);
        }
        graph.note_messages(from, &interface.events, Ghost(with_requests));
        proof {
            assert(all_deps(all.take(i + 1)) =~= with_requests + messages_deps(
                interface.name@,
                interface.events.deep_view(),
            ));
            lemma_extends_on(second, third, graph);
            lemma_extends_on(first, second, graph);
            assert forall|k: int| 0 <= k < all.len() implies graph.knows((#[trigger] all[k]).name) by {
                lemma_still_known(first, graph, all[k].name);
            }
        }
        i += 1;
    }
    assert(all.take(i as int) =~= all);
    graph
}

/// A name that has a number keeps it as a graph gains names.
pub proof fn lemma_still_known(before: Graph, after: Graph, name: Seq<char>)
    requires
        after.extends(&before),
        before.knows(name),
    ensures
        after.knows(name),
{
    let i = choose|i: int| 0 <= i < before.names().len() && #[trigger] before.names()[i] == name;
    assert(before.names()[i] == after.names().subrange(0, before.names().len() as int)[i]);
    assert(after.names()[i] == name);
}

/// Whether `walk` is a walk through the dependencies: at least one interface,
/// and each depends on the next; with `strong_only`, strongly.
pub open spec fn is_chain(deps: Seq<Dep>, walk: Seq<Seq<char>>, strong_only: bool) -> bool {
    &&& walk.len() >= 1
    &&& forall|i: int|
        0 <= i < walk.len() - 1 ==> listed(deps, #[trigger] walk[i], walk[i + 1], strong_only)
}

/// Whether the interface `from` leads to the interface `to`: a walk through
/// the dependencies goes from the one to the other. With `strong_only` every
/// step of it is a strong dependency. Every interface leads to itself.
pub open spec fn leads(deps: Seq<Dep>, from: Seq<char>, to: Seq<char>, strong_only: bool) -> bool {
    exists|walk: Seq<Seq<char>>|
        #[trigger] is_chain(deps, walk, strong_only) && walk[0] == from && walk.last() == to
}

/// Every interface leads to itself.
pub proof fn lemma_leads_itself(deps: Seq<Dep>, a: Seq<char>, strong_only: bool)
    ensures
        leads(deps, a, a, strong_only),
{
    let walk = seq![a];
    assert(is_chain(deps, walk, strong_only));
    assert(walk[0] == a && walk.last() == a);
}

/// A walk goes on along a dependency.
pub proof fn lemma_leads_on(deps: Seq<Dep>, a: Seq<char>, b: Seq<char>, c: Seq<char>, strong_only: bool)
    requires
        leads(deps, a, b, strong_only),
        listed(deps, b, c, strong_only),
    ensures
        leads(deps, a, c, strong_only),
{
    let walk = choose|walk: Seq<Seq<char>>|
        #[trigger] is_chain(deps, walk, strong_only) && walk[0] == a && walk.last() == b;
    let longer = walk.push(c);
    assert forall|i: int| 0 <= i < longer.len() - 1 implies listed(
        deps,
        #[trigger] longer[i],
        longer[i + 1],
        strong_only,
    ) by {
        if i < walk.len() - 1 {
            assert(longer[i] == walk[i]);
            assert(longer[i + 1] == walk[i + 1]);
        }
    }
    assert(is_chain(deps, longer, strong_only));
    assert(longer[0] == a && longer.last() == c);
}

/// A walk of strong dependencies is a walk.
pub proof fn lemma_strong_leads(deps: Seq<Dep>, a: Seq<char>, b: Seq<char>)
    requires
        leads(deps, a, b, true),
    ensures
        leads(deps, a, b, false),
{
    let walk = choose|walk: Seq<Seq<char>>|
        #[trigger] is_chain(deps, walk, true) && walk[0] == a && walk.last() == b;
    assert forall|i: int| 0 <= i < walk.len() - 1 implies listed(
        deps,
        #[trigger] walk[i],
        walk[i + 1],
        false,
    ) by {
        assert(listed(deps, walk[i], walk[i + 1], true));
        let k = choose|k: int|
            0 <= k < deps.len() && (#[trigger] deps[k]).from == walk[i] && deps[k].to == walk[i
                + 1] && (true ==> deps[k].kind == DependencyKind::Strong);
        assert(deps[k].from == walk[i]);
    }
    assert(is_chain(deps, walk, false));
}

/// An edge of the graph is a dependency between the interfaces that its ends
/// are the numbers of.
proof fn lemma_step_listed(graph: Graph, deps: Seq<Dep>, a: int, b: int, strong_only: bool)
    requires
        graph.wf(),
        graph.represents(deps),
        steps(graph.edges@, a, b, strong_only),
    ensures
        0 <= a < graph.names().len(),
        0 <= b < graph.names().len(),
        listed(deps, graph.names()[a], graph.names()[b], strong_only),
{
    let edges = graph.edges@;
    let k = choose|k: int|
        0 <= k < edges.len() && (#[trigger] edges[k]).from == a && edges[k].to == b && walkable(
            edges[k],
            strong_only,
        );
    assert(graph.has(graph.names()[a], graph.names()[b], strong_only));
}

/// Along a walk in the graph, the interface of its start leads to the
/// interface of each of its nodes.
proof fn lemma_walk_leads(graph: Graph, deps: Seq<Dep>, walk: Seq<int>, i: int, strong_only: bool)
    requires
        graph.wf(),
        graph.represents(deps),
        is_walk(graph.edges@, walk, strong_only),
        0 <= walk[0] < graph.names().len(),
        0 <= i < walk.len(),
    ensures
        0 <= walk[i] < graph.names().len(),
        leads(deps, graph.names()[walk[0]], graph.names()[walk[i]], strong_only),
    decreases i,
{
    if i == 0 {
        lemma_leads_itself(deps, graph.names()[walk[0]], strong_only);
    } else {
        lemma_walk_leads(graph, deps, walk, i - 1, strong_only);
        assert(steps(graph.edges@, walk[i - 1], walk[i - 1 + 1], strong_only));
        lemma_step_listed(graph, deps, walk[i - 1], walk[i], strong_only);
        lemma_leads_on(
            deps,
            graph.names()[walk[0]],
            graph.names()[walk[i - 1]],
            graph.names()[walk[i]],
            strong_only,
        );
    }
}

/// Along a walk through the dependencies from an interface that has a number,
/// every interface has a number, and it is reached in the graph.
proof fn lemma_chain_reaches(graph: Graph, deps: Seq<Dep>, a: int, walk: Seq<Seq<char>>, i: int, strong_only: bool) -> (x: int)
    requires
        graph.wf(),
        graph.represents(deps),
        is_chain(deps, walk, strong_only),
        0 <= a < graph.names().len(),
        graph.names()[a] == walk[0],
        0 <= i < walk.len(),
    ensures
        0 <= x < graph.names().len(),
        graph.names()[x] == walk[i],
        reaches(graph.edges@, a, x, strong_only),
    decreases i,
{
    if i == 0 {
        lemma_reaches_itself(graph.edges@, a, strong_only);
        a
    } else {
        let before = lemma_chain_reaches(graph, deps, a, walk, i - 1, strong_only);
        assert(listed(deps, walk[i - 1], walk[i - 1 + 1], strong_only));
        assert(graph.has(walk[i - 1], walk[i], strong_only));
        let edges = graph.edges@;
        let k = choose|k: int|
            0 <= k < edges.len() && graph.names()[(#[trigger] edges[k]).from as int] == walk[i - 1]
                && graph.names()[edges[k].to as int] == walk[i] && walkable(edges[k], strong_only);
        assert(edges[k].from == before) by {
            if edges[k].from < before {
                assert(graph.names()[edges[k].from as int] != graph.names()[before]);
            } else if before < edges[k].from {
                assert(graph.names()[before] != graph.names()[edges[k].from as int]);
            }
        }
        assert(steps(edges, before, edges[k].to as int, strong_only));
        lemma_reaches_on(edges, a, before, edges[k].to as int, strong_only);
        edges[k].to as int
    }
}

/// What is reached in the graph from seeds is what the interfaces of the
/// seeds lead to.
pub proof fn lemma_reached_is_led_to(graph: Graph, deps: Seq<Dep>, seeds: Seq<bool>, x: int, strong_only: bool)
    requires
        graph.wf(),
        graph.represents(deps),
        seeds.len() == graph.names().len(),
        0 <= x < graph.names().len(),
    ensures
        reached(graph.edges@, seeds, x, strong_only) <==> exists|s: int|
            0 <= s < seeds.len() && seeds[s] && #[trigger] leads(
                deps,
                graph.names()[s],
                graph.names()[x],
                strong_only,
            ),
{
    reveal(reached);
    let edges = graph.edges@;
    let names = graph.names();
    if reached(edges, seeds, x, strong_only) {
        let s = choose|s: int|
            0 <= s < seeds.len() && seeds[s] && #[trigger] reaches(edges, s, x, strong_only);
        let walk = choose|walk: Seq<int>|
            #[trigger] is_walk(edges, walk, strong_only) && walk[0] == s && walk.last() == x;
        lemma_walk_leads(graph, deps, walk, walk.len() - 1, strong_only);
        assert(leads(deps, names[s], names[x], strong_only));
    }
    if exists|s: int|
        0 <= s < seeds.len() && seeds[s] && #[trigger] leads(deps, names[s], names[x], strong_only) {
        let s = choose|s: int|
            0 <= s < seeds.len() && seeds[s] && #[trigger] leads(
                deps,
                names[s],
                names[x],
                strong_only,
            );
        let walk = choose|walk: Seq<Seq<char>>|
            #[trigger] is_chain(deps, walk, strong_only) && walk[0] == names[s] && walk.last()
                == names[x];
        let y = lemma_chain_reaches(graph, deps, s, walk, walk.len() - 1, strong_only);
        assert(y == x) by {
            if y < x {
                assert(names[y] != names[x]);
            } else if x < y {
                assert(names[x] != names[y]);
            }
        }
        assert(reaches(edges, s, x, strong_only));
    }
}

/// Whatever an interface with a number leads to has a number.
pub proof fn lemma_led_to_is_known(graph: Graph, deps: Seq<Dep>, from: Seq<char>, to: Seq<char>, strong_only: bool)
    requires
        graph.wf(),
        graph.represents(deps),
        graph.knows(from),
        leads(deps, from, to, strong_only),
    ensures
        graph.knows(to),
{
    let a = choose|i: int| 0 <= i < graph.names().len() && #[trigger] graph.names()[i] == from;
    let walk = choose|walk: Seq<Seq<char>>|
        #[trigger] is_chain(deps, walk, strong_only) && walk[0] == from && walk.last() == to;
    let x = lemma_chain_reaches(graph, deps, a, walk, walk.len() - 1, strong_only);
    assert(graph.names()[x] == to);
}

/// Whether a dependency is one on `to`; with `strong_only`, a strong one.
pub open spec fn aims(dep: Option<Dep>, to: Seq<char>, strong_only: bool) -> bool {
    match dep {
        Some(dep) => dep.to == to && (strong_only ==> dep.kind == DependencyKind::Strong),
        None => false,
    }
}

/// Whether a message of an interface has an argument that makes a dependency
/// on `to`; with `strong_only`, a strong one.
pub open spec fn uses(interface: InterfaceView, to: Seq<char>, strong_only: bool) -> bool {
    ||| exists|m: int, a: int|
        0 <= m < interface.requests.len() && 0 <= a < interface.requests[m].args.len() && aims(
            arg_dep(interface.name, #[trigger] interface.requests[m].args[a]),
            to,
            strong_only,
        )
    ||| exists|m: int, a: int|
        0 <= m < interface.events.len() && 0 <= a < interface.events[m].args.len() && aims(
            arg_dep(interface.name, #[trigger] interface.events[m].args[a]),
            to,
            strong_only,
        )
}

/// Dependencies after dependencies list what either lists.
pub proof fn lemma_listed_add(first: Seq<Dep>, others: Seq<Dep>, from: Seq<char>, to: Seq<char>, strong_only: bool)
    ensures
        listed(first + others, from, to, strong_only) <==> listed(first, from, to, strong_only)
            || listed(others, from, to, strong_only),
{
    let both = first + others;
    if listed(both, from, to, strong_only) {
        let k = choose|k: int|
            0 <= k < both.len() && (#[trigger] both[k]).from == from && both[k].to == to && (
            strong_only ==> both[k].kind == DependencyKind::Strong);
        if k < first.len() {
            assert(first[k] == both[k]);
        } else {
            assert(others[k - first.len()] == both[k]);
        }
    }
    if listed(first, from, to, strong_only) {
        let k = choose|k: int|
            0 <= k < first.len() && (#[trigger] first[k]).from == from && first[k].to == to && (
            strong_only ==> first[k].kind == DependencyKind::Strong);
        assert(both[k] == first[k]);
    }
    if listed(others, from, to, strong_only) {
        let k = choose|k: int|
            0 <= k < others.len() && (#[trigger] others[k]).from == from && others[k].to == to && (
            strong_only ==> others[k].kind == DependencyKind::Strong);
        assert(both[k + first.len()] == others[k]);
    }
}

/// The dependencies of a list of arguments are those that its arguments
/// make.
proof fn lemma_args_listed(name: Seq<char>, args: Seq<ArgView>, from: Seq<char>, to: Seq<char>, strong_only: bool)
    ensures
        listed(args_deps(name, args), from, to, strong_only) <==> from == name && exists|a: int|
            0 <= a < args.len() && aims(arg_dep(name, #[trigger] args[a]), to, strong_only),
    decreases args.len(),
{
    if args.len() > 0 {
        let shorter = args.drop_last();
        let last: Seq<Dep> = match arg_dep(name, args.last()) {
            Some(dep) => seq![dep],
            None => Seq::empty(),
        };
        lemma_args_listed(name, shorter, from, to, strong_only);
        lemma_listed_add(args_deps(name, shorter), last, from, to, strong_only);
        if listed(last, from, to, strong_only) {
            let k = choose|k: int|
                0 <= k < last.len() && (#[trigger] last[k]).from == from && last[k].to == to && (
                strong_only ==> last[k].kind == DependencyKind::Strong);
            assert(aims(arg_dep(name, args[args.len() - 1]), to, strong_only));
        }
        if from == name && exists|a: int|
            0 <= a < shorter.len() && aims(arg_dep(name, #[trigger] shorter[a]), to, strong_only) {
            let a = choose|a: int|
                0 <= a < shorter.len() && aims(arg_dep(name, #[trigger] shorter[a]), to, strong_only);
            assert(args[a] == shorter[a]);
        }
        if from == name && exists|a: int|
            0 <= a < args.len() && aims(arg_dep(name, #[trigger] args[a]), to, strong_only) {
            let a = choose|a: int|
                0 <= a < args.len() && aims(arg_dep(name, #[trigger] args[a]), to, strong_only);
            if a < shorter.len() {
                assert(shorter[a] == args[a]);
            } else {
                assert(last[0].to == to);
            }
        }
    }
}

/// The dependencies of a list of messages are those that the arguments of
/// its messages make.
proof fn lemma_messages_listed(name: Seq<char>, messages: Seq<MessageView>, from: Seq<char>, to: Seq<char>, strong_only: bool)
    ensures
        listed(messages_deps(name, messages), from, to, strong_only) <==> from == name
            && exists|m: int, a: int|
            0 <= m < messages.len() && 0 <= a < messages[m].args.len() && aims(
                arg_dep(name, #[trigger] messages[m].args[a]),
                to,
                strong_only,
            ),
    decreases messages.len(),
{
    if messages.len() > 0 {
        let shorter = messages.drop_last();
        let last = messages.last();
        lemma_messages_listed(name, shorter, from, to, strong_only);
        lemma_args_listed(name, last.args, from, to, strong_only);
        lemma_listed_add(
            messages_deps(name, shorter),
            args_deps(name, last.args),
            from,
            to,
            strong_only,
        );
        if from == name && exists|m: int, a: int|
            0 <= m < shorter.len() && 0 <= a < shorter[m].args.len() && aims(
                arg_dep(name, #[trigger] shorter[m].args[a]),
                to,
                strong_only,
            ) {
            let (m, a) = choose|m: int, a: int|
                0 <= m < shorter.len() && 0 <= a < shorter[m].args.len() && aims(
                    arg_dep(name, #[trigger] shorter[m].args[a]),
                    to,
                    strong_only,
                );
            assert(messages[m] == shorter[m]);
            assert(aims(arg_dep(name, messages[m].args[a]), to, strong_only));
        }
        if from == name && exists|a: int|
            0 <= a < last.args.len() && aims(arg_dep(name, #[trigger] last.args[a]), to, strong_only) {
            let a = choose|a: int|
                0 <= a < last.args.len() && aims(
                    arg_dep(name, #[trigger] last.args[a]),
                    to,
                    strong_only,
                );
            assert(aims(arg_dep(name, messages[messages.len() - 1].args[a]), to, strong_only));
        }
        if from == name && exists|m: int, a: int|
            0 <= m < messages.len() && 0 <= a < messages[m].args.len() && aims(
                arg_dep(name, #[trigger] messages[m].args[a]),
                to,
                strong_only,
            ) {
            let (m, a) = choose|m: int, a: int|
                0 <= m < messages.len() && 0 <= a < messages[m].args.len() && aims(
                    arg_dep(name, #[trigger] messages[m].args[a]),
                    to,
                    strong_only,
                );
            if m < shorter.len() {
                assert(shorter[m] == messages[m]);
                assert(aims(arg_dep(name, shorter[m].args[a]), to, strong_only));
            } else {
                assert(aims(arg_dep(name, last.args[a]), to, strong_only));
            }
        }
    }
}

/// What the dependencies of a list of interfaces are: one interface depends
/// on another exactly if an interface of its name has a message with an
/// argument that is a handle of the other, and strongly so exactly if such an
/// argument is the handle of a new object.
pub proof fn lemma_listed_is_used(interfaces: Seq<InterfaceView>, from: Seq<char>, to: Seq<char>, strong_only: bool)
    ensures
        listed(all_deps(interfaces), from, to, strong_only) <==> exists|i: int|
            0 <= i < interfaces.len() && (#[trigger] interfaces[i]).name == from && uses(
                interfaces[i],
                to,
                strong_only,
            ),
    decreases interfaces.len(),
{
    if interfaces.len() > 0 {
        let shorter = interfaces.drop_last();
        let last = interfaces.last();
        let requests = messages_deps(last.name, last.requests);
        let events = messages_deps(last.name, last.events);
        lemma_listed_is_used(shorter, from, to, strong_only);
        lemma_messages_listed(last.name, last.requests, from, to, strong_only);
        lemma_messages_listed(last.name, last.events, from, to, strong_only);
        lemma_listed_add(all_deps(shorter), requests, from, to, strong_only);
        lemma_listed_add(all_deps(shorter) + requests, events, from, to, strong_only);
        if exists|i: int|
            0 <= i < shorter.len() && (#[trigger] shorter[i]).name == from && uses(
                shorter[i],
                to,
                strong_only,
            ) {
            let i = choose|i: int|
                0 <= i < shorter.len() && (#[trigger] shorter[i]).name == from && uses(
                    shorter[i],
                    to,
                    strong_only,
                );
            assert(interfaces[i] == shorter[i]);
        }
        if last.name == from && uses(last, to, strong_only) {
            assert(interfaces[interfaces.len() - 1] == last);
        }
        if exists|i: int|
            0 <= i < interfaces.len() && (#[trigger] interfaces[i]).name == from && uses(
                interfaces[i],
                to,
                strong_only,
            ) {
            let i = choose|i: int|
                0 <= i < interfaces.len() && (#[trigger] interfaces[i]).name == from && uses(
                    interfaces[i],
                    to,
                    strong_only,
                );
            if i < shorter.len() {
                assert(shorter[i] == interfaces[i]);
            }
        }
    }
}

} // verus!
