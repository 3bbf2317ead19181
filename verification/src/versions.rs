//! The versions that a set of requested interfaces settles for the interfaces
//! it brings with it.

use crate::graph::{closure, reached};
use crate::protocol::{Interface, InterfaceView};
use crate::resolve::{
    all_deps, find_name, leads, lemma_led_to_is_known, lemma_leads_itself,
    lemma_reached_is_led_to, lemma_strong_leads, make_dependency_graph, Dep, Graph,
};
use crate::text::same_text;
use crate::wire::Family;
use vstd::prelude::*;

verus! {

/// An interface by name, with a version: as requested, or as settled.
#[derive(Clone, Debug, PartialEq, Eq)]
pub struct InterfaceVersion {
    pub name: String,
    pub version: u32,
}

/// An interface with a version, as a value.
pub struct InterfaceVersionView {
    pub name: Seq<char>,
    pub version: u32,
}

impl DeepView for InterfaceVersion {
    type V = InterfaceVersionView;

    open spec fn deep_view(&self) -> InterfaceVersionView {
        InterfaceVersionView { name: self.name@, version: self.version }
    }
}

/// Why a set of requested interfaces cannot be had.
#[derive(Clone, Debug, PartialEq, Eq)]
pub enum ResolveError {
    /// A requested interface is not described.
    Unknown { name: String },
    /// A requested interface is described in a lower version only.
    VersionTooHigh { name: String, wanted: u32, declared: u32 },
    /// Wide family: an interface whose objects will be created is not among
    /// the requested ones, so no version of it is agreed on.
    Unconfirmed { name: String },
}

/// A fault as a value.
pub enum ResolveErrorView {
    Unknown { name: Seq<char> },
    VersionTooHigh { name: Seq<char>, wanted: u32, declared: u32 },
    Unconfirmed { name: Seq<char> },
}

impl DeepView for ResolveError {
    type V = ResolveErrorView;

    open spec fn deep_view(&self) -> ResolveErrorView {
        match self {
            ResolveError::Unknown { name } => ResolveErrorView::Unknown { name: name@ },
            ResolveError::VersionTooHigh { name, wanted, declared } => ResolveErrorView::VersionTooHigh {
                name: name@,
                wanted: *wanted,
                declared: *declared,
            },
            ResolveError::Unconfirmed { name } => ResolveErrorView::Unconfirmed { name: name@ },
        }
    }
}

/// The version in which the first interface of that name is described.
pub open spec fn declared(interfaces: Seq<InterfaceView>, name: Seq<char>) -> Option<u32>
    decreases interfaces.len(),
{
    if interfaces.len() == 0 {
        None
    } else if interfaces[0].name == name {
        Some(interfaces[0].version)
    } else {
        declared(interfaces.drop_first(), name)
    }
}

/// What is wrong with one requested interface by itself.
pub open spec fn root_fault(interfaces: Seq<InterfaceView>, root: InterfaceVersionView) -> Option<ResolveErrorView> {
    match declared(interfaces, root.name) {
        None => Some(ResolveErrorView::Unknown { name: root.name }),
        Some(version) => if version < root.version {
            Some(
                ResolveErrorView::VersionTooHigh {
                    name: root.name,
                    wanted: root.version,
                    declared: version,
                },
            )
        } else {
            None
        },
    }
}

/// What is wrong with the first requested interface with which something is.
pub open spec fn first_fault(interfaces: Seq<InterfaceView>, roots: Seq<InterfaceVersionView>) -> Option<ResolveErrorView>
    decreases roots.len(),
{
    if roots.len() == 0 {
        None
    } else {
        match first_fault(interfaces, roots.drop_last()) {
            Some(fault) => Some(fault),
            None => root_fault(interfaces, roots.last()),
        }
    }
}

/// Whether the interface is among the requested ones.
pub open spec fn is_root(roots: Seq<InterfaceVersionView>, name: Seq<char>) -> bool {
    exists|r: int| 0 <= r < roots.len() && (#[trigger] roots[r]).name == name
}

/// Whether a requested interface leads to the interface: it must be known.
pub open spec fn required(deps: Seq<Dep>, roots: Seq<InterfaceVersionView>, name: Seq<char>) -> bool {
    exists|r: int| 0 <= r < roots.len() && leads(deps, (#[trigger] roots[r]).name, name, false)
}

/// Whether a requested interface leads to the interface by strong
/// dependencies alone: objects of it will be created.
pub open spec fn strongly_required(deps: Seq<Dep>, roots: Seq<InterfaceVersionView>, name: Seq<char>) -> bool {
    exists|r: int| 0 <= r < roots.len() && leads(deps, (#[trigger] roots[r]).name, name, true)
}

/// The highest version among the requested interfaces that lead to the
/// interface by strong dependencies alone; zero if none does.
pub open spec fn inherited(deps: Seq<Dep>, roots: Seq<InterfaceVersionView>, name: Seq<char>) -> u32
    decreases roots.len(),
{
    if roots.len() == 0 {
        0
    } else {
        let rest = inherited(deps, roots.drop_last(), name);
        let last = roots.last();
        if leads(deps, last.name, name, true) && last.version > rest {
            last.version
        } else {
            rest
        }
    }
}

/// The highest version in which the interface itself is requested; zero if it
/// is not.
pub open spec fn confirmed(roots: Seq<InterfaceVersionView>, name: Seq<char>) -> u32
    decreases roots.len(),
{
    if roots.len() == 0 {
        0
    } else {
        let rest = confirmed(roots.drop_last(), name);
        let last = roots.last();
        if last.name == name && last.version > rest {
            last.version
        } else {
            rest
        }
    }
}

/// The version that is settled for a required interface. One that no
/// requested interface leads to by strong dependencies alone is a mere handle
/// type, of version zero. Of the others, the narrow family gives each the
/// highest version among the requested interfaces that lead to it so, but no
/// more than the version in which it is described; the wide family gives each
/// the version in which it is itself requested.
pub open spec fn version_of(family: Family, interfaces: Seq<InterfaceView>, roots: Seq<InterfaceVersionView>, name: Seq<char>) -> u32 {
    let deps = all_deps(interfaces);
    if !strongly_required(deps, roots, name) {
        0
    } else {
        match family {
            Family::Narrow => match declared(interfaces, name) {
                Some(version) => if version < inherited(deps, roots, name) {
                    version
                } else {
                    inherited(deps, roots, name)
                },
                None => inherited(deps, roots, name),
            },
            Family::Wide => confirmed(roots, name),
        }
    }
}

/// Whether objects of the interface will be created though it is not among
/// the requested ones.
pub open spec fn unconfirmed(interfaces: Seq<InterfaceView>, roots: Seq<InterfaceVersionView>, name: Seq<char>) -> bool {
    strongly_required(all_deps(interfaces), roots, name) && !is_root(roots, name)
}

/// The version that a list gives for the interface: that of the first entry
/// of that name.
pub open spec fn lookup(map: Seq<InterfaceVersionView>, name: Seq<char>) -> Option<u32>
    decreases map.len(),
{
    if map.len() == 0 {
        None
    } else if map[0].name == name {
        Some(map[0].version)
    } else {
        lookup(map.drop_first(), name)
    }
}

/// The place of the first interface of that name.
pub fn find_interface(interfaces: &Vec<Interface>, name: &str) -> (place: Option<usize>)
    ensures
        match place {
            Some(i) => i < interfaces@.len() && interfaces.deep_view()[i as int].name == name@
                && declared(interfaces.deep_view(), name@) == Some(
                interfaces.deep_view()[i as int].version,
            ),
            None => declared(interfaces.deep_view(), name@) is None,
        },
{
    let ghost all = interfaces.deep_view();
    assert(all.skip(0) =~= all);
    let mut i: usize = 0;
    while i < interfaces.len()
        invariant
            i <= interfaces@.len(),
            all == interfaces.deep_view(),
            declared(all, name@) == declared(all.skip(i as int), name@),
        decreases interfaces@.len() - i,
    {
        assert(all.skip(i as int)[0] == interfaces@[i as int].deep_view());
        assert(all.skip(i as int).drop_first() =~= all.skip(i + 1));
        if same_text(interfaces[i].name.as_str(), name) {
            return Some(i);
        }
        i += 1;
    }
    None
}

/// The version that a list gives for the interface.
pub fn find_version(map: &Vec<InterfaceVersion>, name: &str) -> (version: Option<u32>)
    ensures
        version == lookup(map.deep_view(), name@),
{
    let ghost all = map.deep_view();
    assert(all.skip(0) =~= all);
    let mut i: usize = 0;
    while i < map.len()
        invariant
            i <= map@.len(),
            all == map.deep_view(),
            lookup(all, name@) == lookup(all.skip(i as int), name@),
        decreases map@.len() - i,
    {
        assert(all.skip(i as int)[0] == map@[i as int].deep_view());
        assert(all.skip(i as int).drop_first() =~= all.skip(i + 1));
        if same_text(map[i].name.as_str(), name) {
            return Some(map[i].version);
        }
        i += 1;
    }
    None
}

/// What is wrong with the first requested interface with which something is:
/// it is not described, or described in a lower version only.
pub fn check_roots(interfaces: &Vec<Interface>, roots: &Vec<InterfaceVersion>) -> (fault: Option<ResolveError>)
    ensures
        fault.deep_view() == first_fault(interfaces.deep_view(), roots.deep_view()),
{
    let ghost all = roots.deep_view();
    let mut r: usize = 0;
    assert(first_fault(interfaces.deep_view(), all.take(0)) is None);
    while r < roots.len()
        invariant
            r <= roots@.len(),
            all == roots.deep_view(),
            first_fault(interfaces.deep_view(), all.take(r as int)) is None,
        decreases roots@.len() - r,
    {
        let root: &InterfaceVersion = &roots[r];
        proof {
            assert(all.take(r + 1).drop_last() =~= all.take(r as int));
            assert(all.take(r + 1).last() == root.deep_view());
            lemma_fault_stays(interfaces.deep_view(), all, r + 1);
        }
        match find_interface(interfaces, root.name.as_str()) {
            None => {
                return Some(ResolveError::Unknown { name: root.name.clone() });
            },
            Some(i) => {
                let version: u32 = interfaces[i].version;
                if version < root.version {
                    return Some(
                        ResolveError::VersionTooHigh {
                            name: root.name.clone(),
                            wanted: root.version,
                            declared: version,
                        },
                    );
                }
            },
        }
        r += 1;
    }
    assert(all.take(r as int) =~= all);
    None
}

/// The first fault among some of the requests is the first among all.
proof fn lemma_fault_stays(interfaces: Seq<InterfaceView>, roots: Seq<InterfaceVersionView>, k: int)
    requires
        0 <= k <= roots.len(),
    ensures
        first_fault(interfaces, roots.take(k)) is Some ==> first_fault(interfaces, roots)
            == first_fault(interfaces, roots.take(k)),
    decreases roots.len() - k,
{
    if k == roots.len() {
        assert(roots.take(k) =~= roots);
    } else {
        assert(roots.drop_last().take(k) =~= roots.take(k));
        lemma_fault_stays(interfaces, roots.drop_last(), k);
    }
}

/// Whether every requested interface has a number in the graph.
pub open spec fn roots_known(graph: &Graph, roots: Seq<InterfaceVersionView>) -> bool {
    forall|r: int| 0 <= r < roots.len() ==> graph.knows((#[trigger] roots[r]).name)
}

/// Marks the interfaces that are among the requested ones.
fn seed_roots(graph: &Graph, roots: &Vec<InterfaceVersion>) -> (seeds: Vec<bool>)
    requires
        graph.wf(),
    ensures
        seeds@.len() == graph.names().len(),
        forall|i: int|
            0 <= i < seeds@.len() ==> #[trigger] seeds@[i] == is_root(
                roots.deep_view(),
                graph.names()[i],
            ),
{
    let n: usize = graph.names.len();
    let ghost all = roots.deep_view();
    let mut seeds: Vec<bool> = Vec::new();
    let mut i: usize = 0;
    while i < n
        invariant
            i <= n,
            seeds@.len() == i,
            forall|k: int| 0 <= k < i ==> !#[trigger] seeds@[k],
        decreases n - i,
    {
        seeds.push(false);
        i += 1;
    }
    let mut r: usize = 0;
    while r < roots.len()
        invariant
            r <= roots@.len(),
            all == roots.deep_view(),
            graph.wf(),
            n == graph.names().len(),
            seeds@.len() == n,
            forall|i: int|
                0 <= i < n ==> #[trigger] seeds@[i] == is_root(all.take(r as int), graph.names()[i]),
        decreases roots@.len() - r,
    {
        let ghost before = seeds@;
        let place: Option<usize> = find_name(&graph.names, roots[r].name.as_str());
        match place {
            Some(at) => {
                seeds.set(at, true);
            },
            None => {},
        }
        proof {
            let upto = all.take(r as int);
            let next = all.take(r + 1);
            assert(next[r as int] == roots@[r as int].deep_view());
            assert forall|i: int| 0 <= i < n implies #[trigger] seeds@[i] == is_root(
                next,
                graph.names()[i],
            ) by {
                let name = graph.names()[i];
                if is_root(upto, name) {
                    let q = choose|q: int| 0 <= q < upto.len() && (#[trigger] upto[q]).name == name;
                    assert(next[q] == upto[q]);
                }
                if is_root(next, name) {
                    let q = choose|q: int| 0 <= q < next.len() && (#[trigger] next[q]).name == name;
                    if q < r {
                        assert(next[q] == upto[q]);
                    } else {
                        assert(place is Some);
                        if place.unwrap() < i {
                            assert(graph.names()[place.unwrap() as int] != graph.names()[i]);
                        } else if i < place.unwrap() {
                            assert(graph.names()[i] != graph.names()[place.unwrap() as int]);
                        }
                    }
                }
                if seeds@[i] && !before[i] {
                    assert(next[r as int].name == name);
                }
            }
        }
        r += 1;
    }
    assert(all.take(r as int) =~= all);
    seeds
}

/// Whether a requested interface leads to the interface; with `strong_only`,
/// by strong dependencies alone.
pub open spec fn wanted(deps: Seq<Dep>, roots: Seq<InterfaceVersionView>, name: Seq<char>, strong_only: bool) -> bool {
    if strong_only {
        strongly_required(deps, roots, name)
    } else {
        required(deps, roots, name)
    }
}

/// What is reached in the graph from the requested interfaces is what they
/// lead to.
proof fn lemma_reached_is_wanted(graph: Graph, deps: Seq<Dep>, roots: Seq<InterfaceVersionView>, seeds: Seq<bool>, x: int, strong_only: bool)
    requires
        graph.wf(),
        graph.represents(deps),
        roots_known(&graph, roots),
        seeds.len() == graph.names().len(),
        forall|i: int|
            0 <= i < seeds.len() ==> #[trigger] seeds[i] == is_root(roots, graph.names()[i]),
        0 <= x < graph.names().len(),
    ensures
        reached(graph.edges@, seeds, x, strong_only) == wanted(
            deps,
            roots,
            graph.names()[x],
            strong_only,
        ),
{
    let names = graph.names();
    lemma_reached_is_led_to(graph, deps, seeds, x, strong_only);
    if reached(graph.edges@, seeds, x, strong_only) {
        let s = choose|s: int|
            0 <= s < seeds.len() && seeds[s] && #[trigger] leads(
                deps,
                names[s],
                names[x],
                strong_only,
            );
        assert(is_root(roots, names[s]));
        let r = choose|r: int| 0 <= r < roots.len() && (#[trigger] roots[r]).name == names[s];
        assert(leads(deps, roots[r].name, names[x], strong_only));
    }
    if wanted(deps, roots, names[x], strong_only) {
        let r = choose|r: int|
            0 <= r < roots.len() && leads(deps, (#[trigger] roots[r]).name, names[x], strong_only);
        assert(graph.knows(roots[r].name));
        let s = choose|s: int| 0 <= s < names.len() && #[trigger] names[s] == roots[r].name;
        assert(is_root(roots, names[s]));
        assert(seeds[s]);
        assert(leads(deps, names[s], names[x], strong_only));
    }
}

/// For each interface of the graph, the highest version among the requested
/// interfaces that lead to it by strong dependencies alone.
fn inherit(graph: &Graph, roots: &Vec<InterfaceVersion>, Ghost(deps): Ghost<Seq<Dep>>) -> (versions: Vec<u32>)
    requires
        graph.wf(),
        graph.represents(deps),
        roots_known(graph, roots.deep_view()),
    ensures
        versions@.len() == graph.names().len(),
        forall|i: int|
            0 <= i < versions@.len() ==> #[trigger] versions@[i] == inherited(
                deps,
                roots.deep_view(),
                graph.names()[i],
            ),
{
    let n: usize = graph.names.len();
    let ghost all = roots.deep_view();
    let mut versions: Vec<u32> = Vec::new();
    let mut i: usize = 0;
    while i < n
        invariant
            i <= n,
            versions@.len() == i,
            forall|k: int| 0 <= k < i ==> #[trigger] versions@[k] == 0,
        decreases n - i,
    {
        versions.push(0);
        i += 1;
    }
    let mut r: usize = 0;
    while r < roots.len()
        invariant
            r <= roots@.len(),
            all == roots.deep_view(),
            graph.wf(),
            graph.represents(deps),
            roots_known(graph, all),
            n == graph.names().len(),
            versions@.len() == n,
            forall|i: int|
                0 <= i < n ==> #[trigger] versions@[i] == inherited(
                    deps,
                    all.take(r as int),
                    graph.names()[i],
                ),
        decreases roots@.len() - r,
    {
        let root: &InterfaceVersion = &roots[r];
        let ghost one = seq![root.deep_view()];
        let single: Vec<InterfaceVersion> = vec![
            InterfaceVersion { name: root.name.clone(), version: root.version },
        ];
        assert(single.deep_view() =~= one);
        assert(all[r as int] == root.deep_view());
        assert(roots_known(graph, one)) by {
            assert(graph.knows(all[r as int].name));
        }
        let seeds: Vec<bool> = seed_roots(graph, &single);
        let from_root: Vec<bool> = closure(&graph.edges, &seeds, true);
        let ghost before = versions@;
        let mut x: usize = 0;
        while x < n
            invariant
                x <= n,
                n == graph.names().len(),
                versions@.len() == n,
                from_root@.len() == n,
                before.len() == n,
                forall|i: int|
                    0 <= i < x ==> #[trigger] versions@[i] == if from_root@[i] && root.version
                        > before[i] {
                        root.version
                    } else {
                        before[i]
                    },
                forall|i: int| x <= i < n ==> #[trigger] versions@[i] == before[i],
            decreases n - x,
        {
            if from_root[x] && root.version > versions[x] {
                versions.set(x, root.version);
            }
            x += 1;
        }
        proof {
            let next = all.take(r + 1);
            assert(next.drop_last() =~= all.take(r as int));
            assert(next.last() == root.deep_view());
            assert forall|i: int| 0 <= i < n implies #[trigger] versions@[i] == inherited(
                deps,
                next,
                graph.names()[i],
            ) by {
                lemma_reached_is_wanted(*graph, deps, one, seeds@, i, true);
                let name = graph.names()[i];
                if strongly_required(deps, one, name) {
                    let q = choose|q: int|
                        0 <= q < one.len() && leads(deps, (#[trigger] one[q]).name, name, true);
                    assert(one[q] == root.deep_view());
                }
                if leads(deps, root.name@, name, true) {
                    assert(one[0].name == root.name@);
                    assert(strongly_required(deps, one, name));
                }
            }
        }
        r += 1;
    }
    assert(all.take(r as int) =~= all);
    versions
}

/// The highest version in which the interface itself is requested; zero if
/// it is not.
pub fn confirm(roots: &Vec<InterfaceVersion>, name: &str) -> (version: u32)
    ensures
        version == confirmed(roots.deep_view(), name@),
{
    let ghost all = roots.deep_view();
    let mut version: u32 = 0;
    let mut r: usize = 0;
    while r < roots.len()
        invariant
            r <= roots@.len(),
            all == roots.deep_view(),
            version == confirmed(all.take(r as int), name@),
        decreases roots@.len() - r,
    {
        proof {
            assert(all.take(r + 1).drop_last() =~= all.take(r as int));
            assert(all.take(r + 1).last() == roots@[r as int].deep_view());
        }
        if same_text(roots[r].name.as_str(), name) && roots[r].version > version {
            version = roots[r].version;
        }
        r += 1;
    }
    assert(all.take(r as int) =~= all);
    version
}

/// Whether the interface is among the requested ones.
pub fn root_named(roots: &Vec<InterfaceVersion>, name: &str) -> (found: bool)
    ensures
        found == is_root(roots.deep_view(), name@),
{
    let ghost all = roots.deep_view();
    let mut r: usize = 0;
    while r < roots.len()
        invariant
            r <= roots@.len(),
            all == roots.deep_view(),
            forall|q: int| 0 <= q < r ==> (#[trigger] all[q]).name != name@,
        decreases roots@.len() - r,
    {
        if same_text(roots[r].name.as_str(), name) {
            assert(all[r as int].name == name@);
            return true;
        }
        r += 1;
    }
    false
}

/// A list gives for a name what it gave, or what its new last entry gives if
/// it gave nothing.
pub proof fn lemma_lookup_push(map: Seq<InterfaceVersionView>, entry: InterfaceVersionView, name: Seq<char>)
    ensures
        lookup(map.push(entry), name) == match lookup(map, name) {
            Some(version) => Some(version),
            None => if entry.name == name {
                Some(entry.version)
            } else {
                None
            },
        },
    decreases map.len(),
{
    let longer = map.push(entry);
    if map.len() == 0 {
        assert(longer.drop_first() =~= map);
    } else {
        assert(longer.drop_first() =~= map.drop_first().push(entry));
        lemma_lookup_push(map.drop_first(), entry, name);
    }
}

/// The versions that a set of requested interfaces settles.
///
/// It fails if a requested interface is not described, or is described in a
/// lower version only: the fault is that of the first such request. In the
/// wide family it also fails if objects of an interface will be created that
/// is not itself requested. Else the result has one entry for each interface
/// that a requested one leads to, and no other, with the version settled for
/// it: see [`version_of`].
pub fn resolve(family: Family, interfaces: &Vec<Interface>, roots: &Vec<InterfaceVersion>) -> (result: Result<Vec<InterfaceVersion>, ResolveError>)
    ensures
        match result {
            Ok(map) => {
                &&& first_fault(interfaces.deep_view(), roots.deep_view()) is None
                &&& family == Family::Wide ==> forall|name: Seq<char>|
                    !#[trigger] unconfirmed(interfaces.deep_view(), roots.deep_view(), name)
                &&& forall|name: Seq<char>|
                    #[trigger] lookup(map.deep_view(), name) == if required(
                        all_deps(interfaces.deep_view()),
                        roots.deep_view(),
                        name,
                    ) {
                        Some(version_of(family, interfaces.deep_view(), roots.deep_view(), name))
                    } else {
                        None
                    }
            },
            Err(error) => match first_fault(interfaces.deep_view(), roots.deep_view()) {
                Some(fault) => error.deep_view() == fault,
                None => {
                    &&& family == Family::Wide
                    &&& error is Unconfirmed
                    &&& unconfirmed(
                        interfaces.deep_view(),
                        roots.deep_view(),
                        error->Unconfirmed_name@,
                    )
                },
            },
        },
{
    let ghost ifaces = interfaces.deep_view();
    let ghost wants = roots.deep_view();
    let ghost deps = all_deps(ifaces);
    match check_roots(interfaces, roots) {
        Some(fault) => {
            return Err(fault);
        },
        None => {},
    }
    let graph: Graph = make_dependency_graph(interfaces);
    let n: usize = graph.names.len();
    let ghost names = graph.names();
    proof {
        assert forall|r: int| 0 <= r < wants.len() implies graph.knows((#[trigger] wants[r]).name) by {
            lemma_no_fault(ifaces, wants, r);
            lemma_declared_is_listed(ifaces, wants[r].name);
        }
    }
    let seeds: Vec<bool> = seed_roots(&graph, roots);
    let any: Vec<bool> = closure(&graph.edges, &seeds, false);
    let strong: Vec<bool> = closure(&graph.edges, &seeds, true);
    let inherited_versions: Vec<u32> = inherit(&graph, roots, Ghost(deps));
    proof {
        assert forall|x: int| 0 <= x < n implies #[trigger] any@[x] == required(
            deps,
            wants,
            names[x],
        ) by {
            lemma_reached_is_wanted(graph, deps, wants, seeds@, x, false);
        }
        assert forall|x: int| 0 <= x < n implies #[trigger] strong@[x] == strongly_required(
            deps,
            wants,
            names[x],
        ) by {
            lemma_reached_is_wanted(graph, deps, wants, seeds@, x, true);
        }
    }
    let mut map: Vec<InterfaceVersion> = Vec::new();
    let mut x: usize = 0;
    while x < n
        invariant
            x <= n,
            n == graph.names().len(),
            names == graph.names(),
            graph.wf(),
            any@.len() == n,
            strong@.len() == n,
            inherited_versions@.len() == n,
            ifaces == interfaces.deep_view(),
            wants == roots.deep_view(),
            deps == all_deps(ifaces),
            first_fault(ifaces, wants) is None,
            forall|i: int| 0 <= i < n ==> #[trigger] any@[i] == required(deps, wants, names[i]),
            forall|i: int|
                0 <= i < n ==> #[trigger] strong@[i] == strongly_required(deps, wants, names[i]),
            forall|i: int|
                0 <= i < n ==> #[trigger] inherited_versions@[i] == inherited(deps, wants, names[i]),
            family == Family::Wide ==> forall|i: int|
                0 <= i < x ==> !unconfirmed(ifaces, wants, #[trigger] names[i]),
            forall|name: Seq<char>|
                #[trigger] lookup(map.deep_view(), name) == if exists|i: int|
                    0 <= i < x && #[trigger] names[i] == name && any@[i] {
                    Some(version_of(family, ifaces, wants, name))
                } else {
                    None
                },
        decreases n - x,
    {
        let name: &String = &graph.names[x];
        assert(name@ == names[x as int]);
        assert(strong@[x as int] == strongly_required(deps, wants, names[x as int]));
        assert(any@[x as int] == required(deps, wants, names[x as int]));
        assert(inherited_versions@[x as int] == inherited(deps, wants, names[x as int]));
        let version: u32 = if !strong[x] {
            0
        } else {
            match family {
                Family::Narrow => match find_interface(interfaces, name.as_str()) {
                    Some(at) => if interfaces[at].version < inherited_versions[x] {
                        interfaces[at].version
                    } else {
                        inherited_versions[x]
                    },
                    None => inherited_versions[x],
                },
                Family::Wide => {
                    if !root_named(roots, name.as_str()) {
                        return Err(ResolveError::Unconfirmed { name: name.clone() });
                    }
                    confirm(roots, name.as_str())
                },
            }
        };
        assert(version == version_of(family, ifaces, wants, names[x as int]));
        if any[x] {
            let ghost before = map.deep_view();
            let entry = InterfaceVersion { name: name.clone(), version };
            let ghost added = entry.deep_view();
            map.push(entry);
            proof {
                assert(map.deep_view() =~= before.push(added));
                assert forall|other: Seq<char>| #[trigger]
                    lookup(map.deep_view(), other) == if exists|i: int|
                        0 <= i < x + 1 && #[trigger] names[i] == other && any@[i] {
                        Some(version_of(family, ifaces, wants, other))
                    } else {
                        None
                    } by {
                    lemma_lookup_push(before, added, other);
                    if exists|i: int| 0 <= i < x && #[trigger] names[i] == other && any@[i] {
                        let i = choose|i: int| 0 <= i < x && #[trigger] names[i] == other && any@[i];
                        assert(0 <= i < x + 1 && names[i] == other && any@[i]);
                    } else if other == names[x as int] {
                        assert(0 <= x < x + 1 && names[x as int] == other && any@[x as int]);
                    } else {
                        if exists|i: int| 0 <= i < x + 1 && #[trigger] names[i] == other && any@[i] {
                            let i = choose|i: int|
                                0 <= i < x + 1 && #[trigger] names[i] == other && any@[i];
                            assert(i < x);
                        }
                    }
                }
            }
        } else {
            proof {
                assert forall|other: Seq<char>| #[trigger]
                    lookup(map.deep_view(), other) == if exists|i: int|
                        0 <= i < x + 1 && #[trigger] names[i] == other && any@[i] {
                        Some(version_of(family, ifaces, wants, other))
                    } else {
                        None
                    } by {
                    if exists|i: int| 0 <= i < x && #[trigger] names[i] == other && any@[i] {
                        let i = choose|i: int| 0 <= i < x && #[trigger] names[i] == other && any@[i];
                        assert(0 <= i < x + 1 && names[i] == other && any@[i]);
                    } else {
                        if exists|i: int| 0 <= i < x + 1 && #[trigger] names[i] == other && any@[i] {
                            let i = choose|i: int|
                                0 <= i < x + 1 && #[trigger] names[i] == other && any@[i];
                            assert(i < x);
                        }
                    }
                }
            }
        }
        x += 1;
    }
    proof {
        assert forall|name: Seq<char>| #[trigger]
            lookup(map.deep_view(), name) == if required(deps, wants, name) {
                Some(version_of(family, ifaces, wants, name))
            } else {
                None
            } by {
            if exists|i: int| 0 <= i < n && #[trigger] names[i] == name && any@[i] {
                let i = choose|i: int| 0 <= i < n && #[trigger] names[i] == name && any@[i];
                assert(any@[i] == required(deps, wants, names[i]));
            } else if required(deps, wants, name) {
                let r = choose|r: int|
                    0 <= r < wants.len() && leads(deps, (#[trigger] wants[r]).name, name, false);
                assert(graph.knows(wants[r].name));
                lemma_led_to_is_known(graph, deps, wants[r].name, name, false);
                let i = choose|i: int| 0 <= i < names.len() && #[trigger] names[i] == name;
                assert(any@[i] == required(deps, wants, names[i]));
            }
        }
        if family == Family::Wide {
            assert forall|name: Seq<char>| !#[trigger] unconfirmed(ifaces, wants, name) by {
                if strongly_required(deps, wants, name) {
                    let r = choose|r: int|
                        0 <= r < wants.len() && leads(deps, (#[trigger] wants[r]).name, name, true);
                    assert(graph.knows(wants[r].name));
                    lemma_led_to_is_known(graph, deps, wants[r].name, name, true);
                    let i = choose|i: int| 0 <= i < names.len() && #[trigger] names[i] == name;
                    assert(!unconfirmed(ifaces, wants, names[i]));
                }
            }
        }
    }
    Ok(map)
}

/// Where nothing is wrong with the requests, each requested interface is
/// described.
proof fn lemma_no_fault(interfaces: Seq<InterfaceView>, roots: Seq<InterfaceVersionView>, r: int)
    requires
        first_fault(interfaces, roots) is None,
        0 <= r < roots.len(),
    ensures
        declared(interfaces, roots[r].name) is Some,
        declared(interfaces, roots[r].name).unwrap() >= roots[r].version,
    decreases roots.len(),
{
    if r < roots.len() - 1 {
        lemma_no_fault(interfaces, roots.drop_last(), r);
    }
}

/// An interface that is described is in the list.
proof fn lemma_declared_is_listed(interfaces: Seq<InterfaceView>, name: Seq<char>)
    requires
        declared(interfaces, name) is Some,
    ensures
        exists|i: int| 0 <= i < interfaces.len() && (#[trigger] interfaces[i]).name == name,
    decreases interfaces.len(),
{
    if interfaces[0].name != name {
        lemma_declared_is_listed(interfaces.drop_first(), name);
        let i = choose|i: int|
            0 <= i < interfaces.drop_first().len() && (#[trigger] interfaces.drop_first()[i]).name
                == name;
        assert(interfaces[i + 1].name == name);
    }
}

/// No requested version is higher than any requested for the same interface.
proof fn lemma_confirmed_bounds(roots: Seq<InterfaceVersionView>, name: Seq<char>, r: int)
    requires
        0 <= r < roots.len(),
        roots[r].name == name,
    ensures
        confirmed(roots, name) >= roots[r].version,
    decreases roots.len(),
{
    if r < roots.len() - 1 {
        lemma_confirmed_bounds(roots.drop_last(), name, r);
    }
}

/// The highest requested version of an interface is the version of one of
/// its requests, or zero.
proof fn lemma_confirmed_is_requested(roots: Seq<InterfaceVersionView>, name: Seq<char>)
    ensures
        confirmed(roots, name) == 0 || exists|r: int|
            0 <= r < roots.len() && (#[trigger] roots[r]).name == name && roots[r].version
                == confirmed(roots, name),
    decreases roots.len(),
{
    if roots.len() > 0 {
        let shorter = roots.drop_last();
        lemma_confirmed_is_requested(shorter, name);
        if confirmed(roots, name) == confirmed(shorter, name) {
            if confirmed(shorter, name) != 0 {
                let r = choose|r: int|
                    0 <= r < shorter.len() && (#[trigger] shorter[r]).name == name
                        && shorter[r].version == confirmed(shorter, name);
                assert(roots[r] == shorter[r]);
            }
        } else {
            assert(roots[roots.len() - 1].name == name);
        }
    }
}

/// An interface that is strongly led to by a request inherits at least that
/// request's version.
proof fn lemma_inherited_bounds(deps: Seq<Dep>, roots: Seq<InterfaceVersionView>, name: Seq<char>, r: int)
    requires
        0 <= r < roots.len(),
        leads(deps, roots[r].name, name, true),
    ensures
        inherited(deps, roots, name) >= roots[r].version,
    decreases roots.len(),
{
    if r < roots.len() - 1 {
        lemma_inherited_bounds(deps, roots.drop_last(), name, r);
    }
}

/// No settled version is higher than the version in which the interface is
/// described, where nothing is wrong with the requests.
pub proof fn lemma_version_within_declared(family: Family, interfaces: Seq<InterfaceView>, roots: Seq<InterfaceVersionView>, name: Seq<char>)
    requires
        first_fault(interfaces, roots) is None,
        declared(interfaces, name) is Some,
    ensures
        version_of(family, interfaces, roots, name) <= declared(interfaces, name).unwrap(),
{
    if family == Family::Wide {
        lemma_confirmed_is_requested(roots, name);
        if confirmed(roots, name) != 0 {
            let r = choose|r: int|
                0 <= r < roots.len() && (#[trigger] roots[r]).name == name && roots[r].version
                    == confirmed(roots, name);
            lemma_no_fault(interfaces, roots, r);
        }
    }
}

/// Every requested interface gets at least the version that was requested,
/// where nothing is wrong with the requests.
pub proof fn lemma_request_is_met(family: Family, interfaces: Seq<InterfaceView>, roots: Seq<InterfaceVersionView>, r: int)
    requires
        first_fault(interfaces, roots) is None,
        0 <= r < roots.len(),
    ensures
        required(all_deps(interfaces), roots, roots[r].name),
        version_of(family, interfaces, roots, roots[r].name) >= roots[r].version,
{
    let deps = all_deps(interfaces);
    let name = roots[r].name;
    lemma_leads_itself(deps, name, true);
    lemma_leads_itself(deps, name, false);
    assert(strongly_required(deps, roots, name));
    lemma_no_fault(interfaces, roots, r);
    lemma_inherited_bounds(deps, roots, name, r);
    lemma_confirmed_bounds(roots, name, r);
}

/// An interface whose objects will be created is required, and an interface
/// that no request leads to by strong dependencies alone has version zero.
pub proof fn lemma_weak_is_zero(family: Family, interfaces: Seq<InterfaceView>, roots: Seq<InterfaceVersionView>, name: Seq<char>)
    ensures
        strongly_required(all_deps(interfaces), roots, name) ==> required(
            all_deps(interfaces),
            roots,
            name,
        ),
        !strongly_required(all_deps(interfaces), roots, name) ==> version_of(
            family,
            interfaces,
            roots,
            name,
        ) == 0,
{
    let deps = all_deps(interfaces);
    if strongly_required(deps, roots, name) {
        let r = choose|r: int|
            0 <= r < roots.len() && leads(deps, (#[trigger] roots[r]).name, name, true);
        lemma_strong_leads(deps, roots[r].name, name);
    }
}

} // verus!
