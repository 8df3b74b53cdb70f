//! Measures: how much there is to build, and how much disk it took.

use crate::json::{as_items, items_of, json_of_bytes, member, member_of, parse_bytes};
use crate::metadata::{Dependency, DependencyKind, Metadata, Node, NodeDep, Package, Resolve};
use crate::text::{
    begins_with, decimal, digit, law_printed_number_reads_back, lines, lines_of, print_decimal,
    same_text, strip_prefix,
};
use vstd::hash_set::StringHashSet;
use vstd::prelude::*;
use vstd::string::*;
use vstd::utf8::*;

verus! {

// ---- the build closure ----

/// The node with this id; the last one where several have it.
pub open spec fn node_of(nodes: Seq<Node>, id: Seq<char>) -> Option<Node>
    decreases nodes.len(),
{
    if nodes.len() == 0 {
        None
    } else if nodes.last().id@ == id {
        Some(nodes.last())
    } else {
        node_of(nodes.drop_last(), id)
    }
}

/// The package with this id; the last one where several have it.
pub open spec fn package_of(packages: Seq<Package>, id: Seq<char>) -> Option<Package>
    decreases packages.len(),
{
    if packages.len() == 0 {
        None
    } else if packages.last().id@ == id {
        Some(packages.last())
    } else {
        package_of(packages.drop_last(), id)
    }
}

/// The name that a dependency goes by in the package that declares it.
pub open spec fn local_name(d: Dependency) -> Seq<char> {
    match d.rename {
        Some(rename) => rename@,
        None => d.name@,
    }
}

/// The name of a package as that of its library target, in which a hyphen becomes an underscore. A
/// resolved dependency goes by the library's name, a declared one by that in the manifest.
pub open spec fn library_name(name: Seq<char>) -> Seq<char> {
    name.map_values(
        |c: char|
            if c == '-' {
                '_'
            } else {
                c
            },
    )
}

/// The first declared dependency that goes by `name`.
pub open spec fn first_called(declared: Seq<Dependency>, name: Seq<char>) -> Option<Dependency>
    decreases declared.len(),
{
    if declared.len() == 0 {
        None
    } else if local_name(declared[0]) == name {
        Some(declared[0])
    } else {
        first_called(declared.skip(1), name)
    }
}

/// The first declared dependency that a library target would have `name` for.
pub open spec fn first_known_as(declared: Seq<Dependency>, name: Seq<char>) -> Option<Dependency>
    decreases declared.len(),
{
    if declared.len() == 0 {
        None
    } else if library_name(local_name(declared[0])) == name {
        Some(declared[0])
    } else {
        first_known_as(declared.skip(1), name)
    }
}

/// The first declared dependency on `package` that is not renamed.
pub open spec fn first_on(declared: Seq<Dependency>, package: Seq<char>) -> Option<Dependency>
    decreases declared.len(),
{
    if declared.len() == 0 {
        None
    } else if declared[0].rename is None && declared[0].name@ == package {
        Some(declared[0])
    } else {
        first_on(declared.skip(1), package)
    }
}

/// The declared dependency that was resolved under `name` to a package called `package`, where that
/// is known: the one that goes by just that name, else one whose name becomes it in a library
/// target, else one on the package, whose library target then has a name of its own.
pub open spec fn declared_as(
    declared: Seq<Dependency>,
    name: Seq<char>,
    package: Option<Seq<char>>,
) -> Option<Dependency> {
    if first_called(declared, name) is Some {
        first_called(declared, name)
    } else if first_known_as(declared, name) is Some {
        first_known_as(declared, name)
    } else {
        match package {
            Some(package) => first_on(declared, package),
            None => None,
        }
    }
}

/// The name of the package with this id, where it is known.
pub open spec fn package_name(packages: Seq<Package>, id: Seq<char>) -> Option<Seq<char>> {
    match package_of(packages, id) {
        Some(pkg) => Some(pkg.name@),
        None => None,
    }
}

/// Every kind that is given for the dependency is `Development`, and there is one.
pub open spec fn dev_only(dep: NodeDep) -> bool {
    dep.dep_kinds@.len() > 0 && forall|k: int|
        0 <= k < dep.dep_kinds@.len() ==> dep.dep_kinds@[k] is Development
}

/// A feature of the node turns on the optional dependency that goes by `name`.
pub open spec fn turned_on(features: Seq<String>, name: Seq<char>) -> bool {
    exists|k: int|
        0 <= k < features.len() && {
            ||| (#[trigger] features[k])@ == name
            ||| features[k]@ == "dep:"@ + name
        }
}

/// The resolved dependency is declared as optional, and no feature of the node turns it on.
pub open spec fn turned_off(
    packages: Seq<Package>,
    node: Node,
    pkg: Package,
    dep: NodeDep,
) -> bool {
    match declared_as(pkg.dependencies@, dep.name@, package_name(packages, dep.pkg@)) {
        Some(d) => d.optional && !turned_on(node.features@, local_name(d)),
        None => false,
    }
}

/// The active feature set builds this dependency of the package.
pub open spec fn active(packages: Seq<Package>, node: Node, pkg: Package, dep: NodeDep) -> bool {
    !dev_only(dep) && !turned_off(packages, node, pkg, dep)
}

/// One of the first `n` dependencies of `node` is active and leads to `to`.
pub open spec fn leads_to(
    packages: Seq<Package>,
    node: Node,
    pkg: Package,
    n: int,
    to: Seq<char>,
) -> bool {
    exists|k: int|
        0 <= k < n && (#[trigger] node.deps@[k]).pkg@ == to && active(
            packages,
            node,
            pkg,
            node.deps@[k],
        )
}

/// Building `from` needs `to` built.
pub open spec fn needs(
    packages: Seq<Package>,
    nodes: Seq<Node>,
    from: Seq<char>,
    to: Seq<char>,
) -> bool {
    &&& node_of(nodes, from) is Some
    &&& package_of(packages, from) is Some
    &&& ({
        let node = node_of(nodes, from)->0;
        leads_to(packages, node, package_of(packages, from)->0, node.deps@.len() as int, to)
    })
}

/// Where the walk starts: the root, or every member of a workspace without one.
pub open spec fn starts(m: Metadata, resolve: Resolve) -> Seq<Seq<char>> {
    match resolve.root {
        Some(root) => seq![root@],
        None => m.workspace_members.deep_view(),
    }
}

/// A walk from a start along what each package needs.
pub open spec fn is_walk(m: Metadata, resolve: Resolve, walk: Seq<Seq<char>>) -> bool {
    &&& walk.len() > 0
    &&& starts(m, resolve).contains(walk[0])
    &&& forall|i: int|
        0 <= i < walk.len() - 1 ==> needs(
            m.packages@,
            resolve.nodes@,
            #[trigger] walk[i],
            walk[i + 1],
        )
}

/// Some walk ends at `id`.
pub open spec fn reached(m: Metadata, resolve: Resolve, id: Seq<char>) -> bool {
    exists|walk: Seq<Seq<char>>| #[trigger] is_walk(m, resolve, walk) && walk.last() == id
}

/// The packages that a build takes in.
pub open spec fn closure(m: Metadata, resolve: Resolve) -> Set<Seq<char>> {
    Set::new(|id: Seq<char>| reached(m, resolve, id))
}

/// How many packages a build takes in; all that are known where nothing was resolved.
pub open spec fn closure_size(m: Metadata) -> nat {
    match m.resolve {
        Some(resolve) => closure(m, resolve).len(),
        None => m.packages@.len(),
    }
}

/// The packages that some node depends on.
spec fn mentioned(nodes: Seq<Node>) -> Set<Seq<char>>
    decreases nodes.len(),
{
    if nodes.len() == 0 {
        Set::empty()
    } else {
        mentioned(nodes.drop_last()).union(
            nodes.last().deps@.map_values(|d: NodeDep| d.pkg@).to_set(),
        )
    }
}

proof fn lemma_mentioned_finite(nodes: Seq<Node>)
    ensures
        mentioned(nodes).finite(),
    decreases nodes.len(),
{
    if nodes.len() > 0 {
        lemma_mentioned_finite(nodes.drop_last());
        vstd::seq_lib::seq_to_set_is_finite(nodes.last().deps@.map_values(|d: NodeDep| d.pkg@));
    }
}

proof fn lemma_node_mentions(nodes: Seq<Node>, id: Seq<char>, k: int)
    requires
        node_of(nodes, id) is Some,
        0 <= k < node_of(nodes, id)->0.deps@.len(),
    ensures
        mentioned(nodes).contains(node_of(nodes, id)->0.deps@[k].pkg@),
    decreases nodes.len(),
{
    if nodes.last().id@ == id {
        let targets = nodes.last().deps@.map_values(|d: NodeDep| d.pkg@);
        assert(targets[k] == nodes.last().deps@[k].pkg@);
        assert(targets.contains(targets[k]));
    } else {
        lemma_node_mentions(nodes.drop_last(), id, k);
    }
}

proof fn lemma_walk_extends(m: Metadata, resolve: Resolve, from: Seq<char>, to: Seq<char>)
    requires
        reached(m, resolve, from),
        needs(m.packages@, resolve.nodes@, from, to),
    ensures
        reached(m, resolve, to),
{
    let walk = choose|walk: Seq<Seq<char>>| #[trigger]
        is_walk(m, resolve, walk) && walk.last() == from;
    let longer = walk.push(to);
    assert forall|i: int| 0 <= i < longer.len() - 1 implies needs(
        m.packages@,
        resolve.nodes@,
        #[trigger] longer[i],
        longer[i + 1],
    ) by {
        if i < walk.len() - 1 {
            assert(longer[i] == walk[i]);
            assert(longer[i + 1] == walk[i + 1]);
        }
    }
    assert(is_walk(m, resolve, longer));
    assert(longer.last() == to);
}

proof fn lemma_start_reached(m: Metadata, resolve: Resolve, id: Seq<char>)
    requires
        starts(m, resolve).contains(id),
    ensures
        reached(m, resolve, id),
{
    let walk = seq![id];
    assert(is_walk(m, resolve, walk));
    assert(walk.last() == id);
}

/// A set that holds the starts and what its members need holds every walk.
proof fn lemma_closed_holds_walk(
    m: Metadata,
    resolve: Resolve,
    held: Set<Seq<char>>,
    walk: Seq<Seq<char>>,
)
    requires
        is_walk(m, resolve, walk),
        forall|id: Seq<char>| starts(m, resolve).contains(id) ==> held.contains(id),
        forall|from: Seq<char>, to: Seq<char>|
            held.contains(from) && #[trigger] needs(m.packages@, resolve.nodes@, from, to)
                ==> held.contains(to),
    ensures
        held.contains(walk.last()),
    decreases walk.len(),
{
    if walk.len() > 1 {
        let shorter = walk.drop_last();
        assert forall|i: int| 0 <= i < shorter.len() - 1 implies needs(
            m.packages@,
            resolve.nodes@,
            #[trigger] shorter[i],
            shorter[i + 1],
        ) by {
            assert(shorter[i] == walk[i]);
            assert(shorter[i + 1] == walk[i + 1]);
        }
        assert(is_walk(m, resolve, shorter));
        lemma_closed_holds_walk(m, resolve, held, shorter);
        let i = walk.len() - 2;
        assert(needs(m.packages@, resolve.nodes@, walk[i], walk[i + 1]));
    }
}

fn find_node<'a>(nodes: &'a Vec<Node>, id: &str) -> (r: Option<&'a Node>)
    ensures
        r is Some <==> node_of(nodes@, id@) is Some,
        r matches Some(node) ==> node_of(nodes@, id@) == Some(*node),
{
    let mut i: usize = nodes.len();
    assert(nodes@.take(i as int) =~= nodes@);
    while i > 0
        invariant
            i <= nodes.len(),
            node_of(nodes@, id@) == node_of(nodes@.take(i as int), id@),
        decreases i,
    {
        let ghost head = nodes@.take(i as int);
        assert(head.drop_last() =~= nodes@.take(i - 1));
        i = i - 1;
        if same_text(nodes[i].id.as_str(), id) {
            return Some(&nodes[i]);
        }
    }
    None
}

fn find_package<'a>(packages: &'a Vec<Package>, id: &str) -> (r: Option<&'a Package>)
    ensures
        r is Some <==> package_of(packages@, id@) is Some,
        r matches Some(pkg) ==> package_of(packages@, id@) == Some(*pkg),
{
    let mut i: usize = packages.len();
    assert(packages@.take(i as int) =~= packages@);
    while i > 0
        invariant
            i <= packages.len(),
            package_of(packages@, id@) == package_of(packages@.take(i as int), id@),
        decreases i,
    {
        let ghost head = packages@.take(i as int);
        assert(head.drop_last() =~= packages@.take(i - 1));
        i = i - 1;
        if same_text(packages[i].id.as_str(), id) {
            return Some(&packages[i]);
        }
    }
    None
}

fn is_dev_only(dep: &NodeDep) -> (r: bool)
    ensures
        r == dev_only(*dep),
{
    let mut i: usize = 0;
    while i < dep.dep_kinds.len()
        invariant
            i <= dep.dep_kinds.len(),
            forall|k: int| 0 <= k < i ==> dep.dep_kinds@[k] is Development,
        decreases dep.dep_kinds.len() - i,
    {
        match dep.dep_kinds[i] {
            DependencyKind::Development => {},
            _ => {
                return false;
            },
        }
        i = i + 1;
    }
    dep.dep_kinds.len() > 0
}

fn to_library_name(name: &str) -> (r: String)
    ensures
        r@ == library_name(name@),
{
    let mut out = String::new();
    let ghost mut i: int = 0;
    assert(out@ =~= library_name(name@).take(0));
    for c in it: name.chars()
        invariant
            it.seq() == name@,
            i == it.index(),
            out@ == library_name(name@).take(i),
    {
        let ghost before = out@;
        out.push(
            if c == '-' {
                '_'
            } else {
                c
            },
        );
        proof {
            assert(name@[i] == c);
            assert(library_name(name@).take(i + 1) =~= before.push(library_name(name@)[i]));
            i = i + 1;
        }
    }
    assert(library_name(name@).take(i) =~= library_name(name@));
    out
}

fn local_text<'a>(d: &'a Dependency) -> (r: &'a str)
    ensures
        r@ == local_name(*d),
{
    match &d.rename {
        Some(rename) => rename.as_str(),
        None => d.name.as_str(),
    }
}

fn find_called<'a>(declared: &'a Vec<Dependency>, name: &str) -> (r: Option<&'a Dependency>)
    ensures
        r is Some <==> first_called(declared@, name@) is Some,
        r matches Some(d) ==> first_called(declared@, name@) == Some(*d),
{
    let mut i: usize = 0;
    assert(declared@.skip(0) =~= declared@);
    while i < declared.len()
        invariant
            i <= declared.len(),
            first_called(declared@, name@) == first_called(declared@.skip(i as int), name@),
        decreases declared.len() - i,
    {
        assert(declared@.skip(i as int).skip(1) =~= declared@.skip(i + 1));
        let d = &declared[i];
        if same_text(local_text(d), name) {
            return Some(d);
        }
        i = i + 1;
    }
    None
}

fn find_known_as<'a>(declared: &'a Vec<Dependency>, name: &str) -> (r: Option<&'a Dependency>)
    ensures
        r is Some <==> first_known_as(declared@, name@) is Some,
        r matches Some(d) ==> first_known_as(declared@, name@) == Some(*d),
{
    let mut i: usize = 0;
    assert(declared@.skip(0) =~= declared@);
    while i < declared.len()
        invariant
            i <= declared.len(),
            first_known_as(declared@, name@) == first_known_as(declared@.skip(i as int), name@),
        decreases declared.len() - i,
    {
        assert(declared@.skip(i as int).skip(1) =~= declared@.skip(i + 1));
        let d = &declared[i];
        if same_text(to_library_name(local_text(d)).as_str(), name) {
            return Some(d);
        }
        i = i + 1;
    }
    None
}

fn find_on<'a>(declared: &'a Vec<Dependency>, package: &str) -> (r: Option<&'a Dependency>)
    ensures
        r is Some <==> first_on(declared@, package@) is Some,
        r matches Some(d) ==> first_on(declared@, package@) == Some(*d),
{
    let mut i: usize = 0;
    assert(declared@.skip(0) =~= declared@);
    while i < declared.len()
        invariant
            i <= declared.len(),
            first_on(declared@, package@) == first_on(declared@.skip(i as int), package@),
        decreases declared.len() - i,
    {
        assert(declared@.skip(i as int).skip(1) =~= declared@.skip(i + 1));
        let d = &declared[i];
        if d.rename.is_none() && same_text(d.name.as_str(), package) {
            return Some(d);
        }
        i = i + 1;
    }
    None
}

fn find_declared<'a>(declared: &'a Vec<Dependency>, name: &str, package: Option<&str>) -> (r: Option<
    &'a Dependency,
>)
    ensures
        r is Some <==> declared_as(declared@, name@, package.deep_view()) is Some,
        r matches Some(d) ==> declared_as(declared@, name@, package.deep_view()) == Some(*d),
{
    if let Some(d) = find_called(declared, name) {
        return Some(d);
    }
    if let Some(d) = find_known_as(declared, name) {
        return Some(d);
    }
    match package {
        Some(package) => find_on(declared, package),
        None => None,
    }
}

fn is_turned_on(features: &Vec<String>, name: &str) -> (r: bool)
    ensures
        r == turned_on(features@, name@),
{
    let mut marked = "dep:".to_owned();
    marked.append(name);
    let mut i: usize = 0;
    while i < features.len()
        invariant
            i <= features.len(),
            marked@ == "dep:"@ + name@,
            forall|k: int|
                0 <= k < i ==> (#[trigger] features@[k])@ != name@ && features@[k]@ != "dep:"@
                    + name@,
        decreases features.len() - i,
    {
        if same_text(features[i].as_str(), name) || same_text(
            features[i].as_str(),
            marked.as_str(),
        ) {
            assert(features@[i as int]@ == name@ || features@[i as int]@ == "dep:"@ + name@);
            return true;
        }
        i = i + 1;
    }
    false
}

fn is_active(packages: &Vec<Package>, node: &Node, pkg: &Package, dep: &NodeDep) -> (r: bool)
    ensures
        r == active(packages@, *node, *pkg, *dep),
{
    if is_dev_only(dep) {
        return false;
    }
    let package: Option<&str> = match find_package(packages, dep.pkg.as_str()) {
        Some(found) => Some(found.name.as_str()),
        None => None,
    };
    match find_declared(&pkg.dependencies, dep.name.as_str(), package) {
        Some(d) => !d.optional || is_turned_on(&node.features, local_text(d)),
        None => true,
    }
}

/// Puts on `stack` what an active dependency of `node` leads to.
fn push_needed(stack: &mut Vec<String>, packages: &Vec<Package>, node: &Node, pkg: &Package)
    ensures
        old(stack)@.len() <= final(stack)@.len(),
        final(stack)@.take(old(stack)@.len() as int) == old(stack)@,
        forall|i: int|
            old(stack)@.len() <= i < final(stack)@.len() ==> leads_to(
                packages@,
                *node,
                *pkg,
                node.deps@.len() as int,
                (#[trigger] final(stack)@[i])@,
            ),
        forall|to: Seq<char>|
            leads_to(packages@, *node, *pkg, node.deps@.len() as int, to)
                ==> #[trigger] final(stack).deep_view().contains(to),
{
    let ghost before = stack@;
    let mut i: usize = 0;
    while i < node.deps.len()
        invariant
            i <= node.deps.len(),
            before == old(stack)@,
            before.len() <= stack@.len(),
            stack@.take(before.len() as int) == before,
            forall|j: int|
                before.len() <= j < stack@.len() ==> leads_to(
                    packages@,
                    *node,
                    *pkg,
                    i as int,
                    (#[trigger] stack@[j])@,
                ),
            forall|to: Seq<char>|
                leads_to(packages@, *node, *pkg, i as int, to) ==> #[trigger] stack.deep_view().contains(to),
        decreases node.deps.len() - i,
    {
        let ghost held = stack@;
        let ghost held_text = stack.deep_view();
        let dep = &node.deps[i];
        if is_active(packages, node, pkg, dep) {
            stack.push(dep.pkg.clone());
        }
        proof {
            assert forall|j: int| before.len() <= j < stack@.len() implies leads_to(
                packages@,
                *node,
                *pkg,
                i + 1,
                (#[trigger] stack@[j])@,
            ) by {
                if j < held.len() {
                    assert(leads_to(packages@, *node, *pkg, i as int, held[j]@));
                } else {
                    assert(node.deps@[i as int].pkg@ == stack@[j]@);
                }
            }
            assert forall|to: Seq<char>| leads_to(packages@, *node, *pkg, i + 1, to) implies #[trigger]
                stack.deep_view().contains(to) by {
                let k = choose|k: int|
                    0 <= k < i + 1 && (#[trigger] node.deps@[k]).pkg@ == to && active(
                        packages@,
                        *node,
                        *pkg,
                        node.deps@[k],
                    );
                if k < i {
                    assert(leads_to(packages@, *node, *pkg, i as int, to));
                    assert(held_text.contains(to));
                    let at = choose|at: int| 0 <= at < held_text.len() && held_text[at] == to;
                    assert(stack.deep_view()[at] == to);
                } else {
                    assert(stack.deep_view()[held.len() as int] == to);
                }
            }
            assert(stack@.take(before.len() as int) =~= before);
        }
        i = i + 1;
    }
}

/// How many packages the build takes in: walks the resolve graph from the root and only follows
/// edges the active feature set actually turns on, since the packages of the graph include
/// optional deps whose gating feature isn't on.
pub fn build_closure_size(metadata: &Metadata) -> (r: usize)
    ensures
        r == closure_size(*metadata),
{
    let resolve = match &metadata.resolve {
        Some(resolve) => resolve,
        None => {
            return metadata.packages.len();
        },
    };
    let ghost m = *metadata;
    let ghost g = *resolve;
    let mut stack: Vec<String> = match &resolve.root {
        Some(root) => {
            let mut only: Vec<String> = Vec::new();
            only.push(root.clone());
            only
        },
        None => metadata.workspace_members.clone(),
    };
    let ghost universe = starts(m, g).to_set().union(mentioned(g.nodes@));
    proof {
        assert(stack.deep_view() =~= starts(m, g));
        lemma_mentioned_finite(g.nodes@);
        vstd::seq_lib::seq_to_set_is_finite(starts(m, g));
        assert forall|i: int| 0 <= i < stack@.len() implies reached(m, g, (#[trigger] stack@[i])@)
            && universe.contains(stack@[i]@) by {
            assert(stack.deep_view()[i] == stack@[i]@);
            assert(starts(m, g).contains(stack@[i]@));
            lemma_start_reached(m, g, stack@[i]@);
        }
    }
    let mut seen = StringHashSet::new();
    while stack.len() > 0
        invariant
            m == *metadata,
            g == *resolve,
            universe == starts(m, g).to_set().union(mentioned(g.nodes@)),
            universe.finite(),
            seen@.finite(),
            seen@.subset_of(universe),
            forall|i: int|
                0 <= i < stack@.len() ==> reached(m, g, (#[trigger] stack@[i])@)
                    && universe.contains(stack@[i]@),
            forall|id: Seq<char>| #[trigger] seen@.contains(id) ==> reached(m, g, id),
            forall|id: Seq<char>| #[trigger]
                starts(m, g).contains(id) ==> seen@.contains(id) || stack.deep_view().contains(id),
            forall|from: Seq<char>, to: Seq<char>|
                seen@.contains(from) && #[trigger] needs(m.packages@, g.nodes@, from, to)
                    ==> seen@.contains(to) || stack.deep_view().contains(to),
        decreases universe.len() - seen@.len(), stack@.len(),
    {
        let ghost seen_before = seen@;
        let ghost stack_before = stack@;
        let ghost text_before = stack.deep_view();
        let ghost last = stack_before.last()@;
        let id = stack.pop().unwrap();
        proof {
            assert(id@ == last);
            assert(stack@ =~= stack_before.drop_last());
            assert(reached(m, g, last) && universe.contains(last)) by {
                assert(stack_before[stack_before.len() - 1]@ == last);
            }
            assert forall|to: Seq<char>| #[trigger] text_before.contains(to) && to != last implies
                stack.deep_view().contains(to) by {
                let at = choose|at: int| 0 <= at < text_before.len() && text_before[at] == to;
                assert(stack.deep_view()[at] == to);
            }
            vstd::set_lib::lemma_len_subset(seen@.insert(last), universe);
            assert forall|i: int| 0 <= i < stack@.len() implies reached(
                m,
                g,
                (#[trigger] stack@[i])@,
            ) && universe.contains(stack@[i]@) by {
                assert(stack@[i] == stack_before[i]);
            }
        }
        let ghost popped = stack@;
        let ghost popped_text = stack.deep_view();
        let fresh = seen.insert(id.clone());
        if fresh {
            match (find_node(&resolve.nodes, id.as_str()), find_package(
                &metadata.packages,
                id.as_str(),
            )) {
                (Some(node), Some(pkg)) => {
                    push_needed(&mut stack, &metadata.packages, node, pkg);
                    proof {
                        assert forall|i: int| 0 <= i < stack@.len() implies reached(
                            m,
                            g,
                            (#[trigger] stack@[i])@,
                        ) && universe.contains(stack@[i]@) by {
                            if i < popped.len() {
                                assert(stack@.take(popped.len() as int)[i] == popped[i]);
                            } else {
                                let to = stack@[i]@;
                                assert(leads_to(m.packages@, *node, *pkg, node.deps@.len() as int, to));
                                assert(needs(m.packages@, g.nodes@, last, to));
                                lemma_walk_extends(m, g, last, to);
                                let k = choose|k: int|
                                    0 <= k < node.deps@.len() && (#[trigger] node.deps@[k]).pkg@
                                        == to && active(m.packages@, *node, *pkg, node.deps@[k]);
                                lemma_node_mentions(g.nodes@, last, k);
                            }
                        }
                        assert forall|to: Seq<char>| #[trigger]
                            popped_text.contains(to) implies stack.deep_view().contains(to) by {
                            let at = choose|at: int|
                                0 <= at < popped_text.len() && popped_text[at] == to;
                            assert(stack@.take(popped.len() as int)[at] == popped[at]);
                            assert(stack.deep_view()[at] == to);
                        }
                        assert forall|to: Seq<char>| #[trigger]
                            needs(m.packages@, g.nodes@, last, to) implies seen@.contains(to)
                            || stack.deep_view().contains(to) by {
                            assert(leads_to(m.packages@, *node, *pkg, node.deps@.len() as int, to));
                        }
                    }
                },
                _ => {
                    assert(forall|to: Seq<char>| !#[trigger]
                        needs(m.packages@, g.nodes@, last, to));
                },
            }
        } else {
            assert(seen@ =~= seen_before);
        }
        proof {
            assert forall|to: Seq<char>| #[trigger] text_before.contains(to) implies seen@.contains(
                to,
            ) || stack.deep_view().contains(to) by {
                if to != last {
                    assert(popped_text.contains(to));
                }
            }
            assert forall|id: Seq<char>| #[trigger] starts(m, g).contains(id) implies seen@.contains(
                id,
            ) || stack.deep_view().contains(id) by {
                if !seen_before.contains(id) {
                    assert(text_before.contains(id));
                }
            }
            assert forall|from: Seq<char>, to: Seq<char>|
                seen@.contains(from) && #[trigger] needs(m.packages@, g.nodes@, from, to) implies
                seen@.contains(to) || stack.deep_view().contains(to) by {
                if seen_before.contains(from) && !seen_before.contains(to) {
                    assert(text_before.contains(to));
                }
            }
        }
    }
    proof {
        assert(stack.deep_view() =~= Seq::<Seq<char>>::empty());
        assert forall|id: Seq<char>| reached(m, g, id) implies seen@.contains(id) by {
            let walk = choose|walk: Seq<Seq<char>>| #[trigger]
                is_walk(m, g, walk) && walk.last() == id;
            lemma_closed_holds_walk(m, g, seen@, walk);
        }
        assert(seen@ =~= closure(m, g));
    }
    seen.len()
}

/// What a build takes in is a finite set, so its size is a number of packages, each counted once.
pub proof fn law_closure_is_finite(m: Metadata, resolve: Resolve)
    ensures
        closure(m, resolve).finite(),
{
    let universe = starts(m, resolve).to_set().union(mentioned(resolve.nodes@));
    lemma_mentioned_finite(resolve.nodes@);
    vstd::seq_lib::seq_to_set_is_finite(starts(m, resolve));
    assert forall|id: Seq<char>| closure(m, resolve).contains(id) implies universe.contains(id) by {
        let walk = choose|walk: Seq<Seq<char>>| #[trigger]
            is_walk(m, resolve, walk) && walk.last() == id;
        assert forall|from: Seq<char>, to: Seq<char>|
            universe.contains(from) && #[trigger] needs(
                m.packages@,
                resolve.nodes@,
                from,
                to,
            ) implies universe.contains(to) by {
            let node = node_of(resolve.nodes@, from)->0;
            let pkg = package_of(m.packages@, from)->0;
            let k = choose|k: int|
                0 <= k < node.deps@.len() && (#[trigger] node.deps@[k]).pkg@ == to && active(
                    m.packages@,
                    node,
                    pkg,
                    node.deps@[k],
                );
            lemma_node_mentions(resolve.nodes@, from, k);
        }
        lemma_closed_holds_walk(m, resolve, universe, walk);
    }
    assert(closure(m, resolve).subset_of(universe));
    vstd::set_lib::lemma_len_subset(closure(m, resolve), universe);
}

/// What a build takes in is the least set of packages that holds every start and, with a package,
/// all that it needs.
pub proof fn law_closure_is_least(m: Metadata, resolve: Resolve, held: Set<Seq<char>>)
    requires
        forall|id: Seq<char>| starts(m, resolve).contains(id) ==> held.contains(id),
        forall|from: Seq<char>, to: Seq<char>|
            held.contains(from) && #[trigger] needs(m.packages@, resolve.nodes@, from, to)
                ==> held.contains(to),
    ensures
        forall|id: Seq<char>|
            starts(m, resolve).contains(id) ==> #[trigger] closure(m, resolve).contains(id),
        forall|from: Seq<char>, to: Seq<char>|
            closure(m, resolve).contains(from) && #[trigger] needs(
                m.packages@,
                resolve.nodes@,
                from,
                to,
            ) ==> closure(m, resolve).contains(to),
        closure(m, resolve).subset_of(held),
{
    assert forall|id: Seq<char>| starts(m, resolve).contains(id) implies #[trigger] closure(
        m,
        resolve,
    ).contains(id) by {
        lemma_start_reached(m, resolve, id);
    }
    assert forall|from: Seq<char>, to: Seq<char>|
        closure(m, resolve).contains(from) && #[trigger] needs(
            m.packages@,
            resolve.nodes@,
            from,
            to,
        ) implies closure(m, resolve).contains(to) by {
        lemma_walk_extends(m, resolve, from, to);
    }
    assert forall|id: Seq<char>| closure(m, resolve).contains(id) implies held.contains(id) by {
        let walk = choose|walk: Seq<Seq<char>>| #[trigger]
            is_walk(m, resolve, walk) && walk.last() == id;
        lemma_closed_holds_walk(m, resolve, held, walk);
    }
}

/// A dependency that is there for development alone, or that is optional and not turned on, is
/// not followed: where all that leads from one package to another is of that sort, the first does
/// not need the second.
pub proof fn law_inactive_is_not_followed(m: Metadata, resolve: Resolve, node: Node, pkg: Package, to: Seq<char>)
    requires
        node_of(resolve.nodes@, node.id@) == Some(node),
        package_of(m.packages@, node.id@) == Some(pkg),
        forall|k: int|
            0 <= k < node.deps@.len() && (#[trigger] node.deps@[k]).pkg@ == to ==> {
                ||| dev_only(node.deps@[k])
                ||| turned_off(m.packages@, node, pkg, node.deps@[k])
            },
    ensures
        !needs(m.packages@, resolve.nodes@, node.id@, to),
{
}

/// How many units a unit graph lists.
pub open spec fn units_in(graph: serde_json::Value) -> Option<usize> {
    match member_of(graph, "units"@) {
        Some(units) => match items_of(units) {
            Some(items) => Some(items.len() as usize),
            None => None,
        },
        None => None,
    }
}

/// The number of units in cargo's unit graph.
pub fn unit_count(graph: &serde_json::Value) -> (r: Option<usize>)
    ensures
        r == units_in(*graph),
{
    match member(graph, "units") {
        Some(units) => match as_items(units) {
            Some(items) => Some(items.len()),
            None => None,
        },
        None => None,
    }
}

/// Exact unit count straight from the output of cargo's own `--unit-graph`, `None` where cargo did
/// not succeed or its output holds no unit graph.
pub fn exact_unit_count(success: bool, stdout: &[u8]) -> (r: Option<usize>)
    ensures
        r == match json_of_bytes(stdout@) {
            Some(graph) => if success {
                units_in(graph)
            } else {
                None
            },
            None => None,
        },
{
    if !success {
        return None;
    }
    match parse_bytes(stdout) {
        Some(graph) => unit_count(&graph),
        None => None,
    }
}

// ---- the host ----

/// What stands after `host: ` in the first line that begins with it.
pub open spec fn host_in(lines: Seq<Seq<char>>) -> Option<Seq<char>>
    decreases lines.len(),
{
    if lines.len() == 0 {
        None
    } else if begins_with(lines[0], "host: "@) {
        Some(lines[0].skip("host: "@.len() as int))
    } else {
        host_in(lines.skip(1))
    }
}

/// Calls `String::from_utf8`: the text that the bytes encode, `None` where they are no UTF-8.
#[verifier::external_body]
fn utf8_text(bytes: Vec<u8>) -> (r: Option<String>)
    ensures
        r is Some <==> valid_utf8(bytes@),
        r matches Some(text) ==> text@ == decode_utf8(bytes@),
{
    String::from_utf8(bytes).ok()
}

/// The host triple in the output of `rustc -vV`. `cargo metadata` resolves the dependency graph
/// for every platform by default, pulling in packages that never build on this machine.
pub fn host_triple(stdout: Vec<u8>) -> (r: Option<String>)
    ensures
        r.deep_view() == if valid_utf8(stdout@) {
            host_in(lines_of(decode_utf8(stdout@)))
        } else {
            None
        },
{
    let text = match utf8_text(stdout) {
        Some(text) => text,
        None => {
            return None;
        },
    };
    let all = lines(text.as_str());
    let ghost views = all.deep_view();
    let mut i: usize = 0;
    assert(views.skip(0) =~= views);
    while i < all.len()
        invariant
            i <= all.len(),
            valid_utf8(stdout@),
            views == lines_of(decode_utf8(stdout@)),
            views == all.deep_view(),
            host_in(views) == host_in(views.skip(i as int)),
        decreases all.len() - i,
    {
        assert(views.skip(i as int)[0] == all[i as int]@);
        assert(views.skip(i as int).skip(1) =~= views.skip(i + 1));
        if let Some(triple) = strip_prefix(all[i], "host: ") {
            return Some(triple.to_owned());
        }
        i = i + 1;
    }
    None
}

// ---- disk ----

/// An entry of a directory, as far as it could be read.
#[derive(Debug, PartialEq, Eq)]
pub enum DirEntry {
    Dir(Vec<DirEntry>),
    File(u64),
    Unreadable,
}

/// The bytes that an entry takes up, those of a directory being the bytes of its entries.
pub open spec fn entry_bytes(entry: DirEntry) -> nat
    decreases entry,
{
    match entry {
        DirEntry::Dir(entries) => dir_bytes(entries@, entries@.len()),
        DirEntry::File(len) => len as nat,
        DirEntry::Unreadable => 0,
    }
}

/// The bytes that the first `n` entries take up.
pub open spec fn dir_bytes(entries: Seq<DirEntry>, n: nat) -> nat
    decreases entries, n,
{
    if n == 0 || n > entries.len() {
        0
    } else {
        dir_bytes(entries, (n - 1) as nat) + entry_bytes(entries[n - 1])
    }
}

proof fn lemma_dir_bytes_grow(entries: Seq<DirEntry>, n: nat, more: nat)
    requires
        n <= more <= entries.len(),
    ensures
        dir_bytes(entries, n) <= dir_bytes(entries, more),
    decreases more,
{
    if n < more {
        lemma_dir_bytes_grow(entries, n, (more - 1) as nat);
    }
}

/// The bytes that the entries of a directory take up, `None` where they are more than a `u64`
/// holds.
pub fn dir_size(entries: &Vec<DirEntry>) -> (r: Option<u64>)
    ensures
        r is Some <==> dir_bytes(entries@, entries@.len()) <= u64::MAX,
        r matches Some(bytes) ==> bytes == dir_bytes(entries@, entries@.len()),
    decreases entries@,
{
    let mut sum: u64 = 0;
    let mut i: usize = 0;
    while i < entries.len()
        invariant
            i <= entries.len(),
            sum == dir_bytes(entries@, i as nat),
        decreases entries.len() - i,
    {
        proof {
            lemma_dir_bytes_grow(entries@, (i + 1) as nat, entries@.len());
            reveal_with_fuel(dir_bytes, 2);
            reveal_with_fuel(entry_bytes, 2);
        }
        let bytes: u64 = match &entries[i] {
            DirEntry::Dir(inner) => {
                match dir_size(inner) {
                    Some(bytes) => bytes,
                    None => {
                        return None;
                    },
                }
            },
            DirEntry::File(len) => *len,
            DirEntry::Unreadable => 0,
        };
        if bytes > u64::MAX - sum {
            return None;
        }
        sum = sum + bytes;
        i = i + 1;
    }
    Some(sum)
}

/// `n / d` rounded to the nearest whole number, a tie to the even one.
pub open spec fn round_half_even(n: nat, d: nat) -> nat {
    let q = n / d;
    let r = n % d;
    if 2 * r < d || (2 * r == d && q % 2 == 0) {
        q
    } else {
        q + 1
    }
}

/// The distance between neighbouring double-precision numbers at `n`, which is at least `step`: a
/// power of two, one as long as `n` fits in the 53 bits of the significand.
pub open spec fn spacing(n: nat, step: nat) -> nat
    decreases n - step,
{
    if step == 0 || n < 0x20_0000_0000_0000 * step {
        step
    } else {
        spacing(n, 2 * step)
    }
}

/// The double-precision number that is nearest to `n`, a tie going to the even significand.
pub open spec fn nearest_double(n: nat) -> nat {
    round_half_even(n, spacing(n, 1)) * spacing(n, 1)
}

/// How many times `size` is divided by 1024 to come below it, three times at most.
pub open spec fn unit_of(size: nat) -> nat {
    if size < 0x400 {
        0
    } else if size < 0x10_0000 {
        1
    } else if size < 0x4000_0000 {
        2
    } else {
        3
    }
}

/// The bytes in one of the unit.
pub open spec fn unit_bytes(unit: nat) -> nat {
    if unit == 0 {
        1
    } else if unit == 1 {
        0x400
    } else if unit == 2 {
        0x10_0000
    } else {
        0x4000_0000
    }
}

/// The name of the unit.
pub open spec fn unit_name(unit: nat) -> Seq<char> {
    if unit == 0 {
        "B"@
    } else if unit == 1 {
        "KB"@
    } else if unit == 2 {
        "MB"@
    } else {
        "GB"@
    }
}

/// The size in tenths of its unit, rounded.
pub open spec fn size_tenths(bytes: nat) -> nat {
    let size = nearest_double(bytes);
    round_half_even(10 * size, unit_bytes(unit_of(size)))
}

/// A number of bytes as it is shown: with one decimal, in the largest unit up to GB of which
/// there is at least one.
pub open spec fn size_text(bytes: nat) -> Seq<char> {
    let tenths = size_tenths(bytes);
    decimal(tenths / 10) + "."@ + seq![digit(tenths % 10)] + " "@ + unit_name(
        unit_of(nearest_double(bytes)),
    )
}

fn rounded(n: u128, d: u128) -> (r: u128)
    requires
        d > 0,
        n < 0x1_0000_0000_0000_0000_0000,
        d < 0x1_0000_0000_0000_0000_0000,
    ensures
        r == round_half_even(n as nat, d as nat),
        r <= n + 1,
{
    let q: u128 = n / d;
    let r: u128 = n % d;
    proof {
        assert(q <= n) by (nonlinear_arith)
            requires
                q == n / d,
                d > 0,
        ;
    }
    if 2 * r < d || (2 * r == d && q % 2 == 0) {
        q
    } else {
        q + 1
    }
}

/// `bytes` rounded to double precision.
fn rounded_to_double(bytes: u64) -> (r: u128)
    ensures
        r == nearest_double(bytes as nat),
        r <= 0x1_0000_0000_0000_0000,
{
    let n: u128 = bytes as u128;
    let mut step: u128 = 1;
    let mut k: usize = 0;
    proof {
        vstd::arithmetic::power2::lemma2_to64();
    }
    while n >= 0x20_0000_0000_0000 * step
        invariant
            n == bytes,
            spacing(n as nat, 1) == spacing(n as nat, step as nat),
            k <= 11,
            step == vstd::arithmetic::power2::pow2(k as nat),
            1 <= step <= 0x800,
        decreases 0x1000 - step,
    {
        proof {
            vstd::arithmetic::power2::lemma2_to64();
            vstd::arithmetic::power2::lemma_pow2_unfold((k + 1) as nat);
            if k == 11 {
                assert(step == 0x800);
            }
            assert(step < 0x800);
        }
        step = 2 * step;
        k = k + 1;
        proof {
            vstd::arithmetic::power2::lemma2_to64();
        }
    }
    let units: u128 = rounded(n, step);
    proof {
        vstd::arithmetic::power2::lemma2_to64();
        let q = n / step;
        assert(units <= q + 1);
        assert(q <= 0x20_0000_0000_0000 - 1) by (nonlinear_arith)
            requires
                q == n / step,
                step >= 1,
                n < 0x20_0000_0000_0000 * step,
        ;
        assert(units * step <= 0x20_0000_0000_0000 * step) by (nonlinear_arith)
            requires
                units <= 0x20_0000_0000_0000,
                step >= 1,
        ;
        assert(0x20_0000_0000_0000 * step <= 0x20_0000_0000_0000 * 0x800);
    }
    units * step
}

/// `bytes` as a person reads it: `1.5 KB`.
pub fn human_size(bytes: u64) -> (r: String)
    ensures
        r@ == size_text(bytes as nat),
{
    let size: u128 = rounded_to_double(bytes);
    let (per_unit, name): (u128, &str) = if size < 0x400 {
        (1, "B")
    } else if size < 0x10_0000 {
        (0x400, "KB")
    } else if size < 0x4000_0000 {
        (0x10_0000, "MB")
    } else {
        (0x4000_0000, "GB")
    };
    let tenths: u128 = rounded(10 * size, per_unit);
    proof {
        assert(tenths <= u64::MAX) by {
            let q = (10 * size) / per_unit as int;
            assert(tenths <= q + 1);
        }
    }
    let tenths: u64 = tenths as u64;
    let mut out = print_decimal(tenths / 10);
    out.append(".");
    out.append(print_decimal(tenths % 10).as_str());
    out.append(" ");
    out.append(name);
    out
}

/// Sizes that fit in the 53 bits of a double's significand are not rounded before they are scaled.
pub proof fn law_small_sizes_are_exact(bytes: nat)
    requires
        bytes < 0x20_0000_0000_0000,
    ensures
        nearest_double(bytes) == bytes,
{
    assert(spacing(bytes, 1) == 1);
    assert(bytes / 1 == bytes);
    assert(bytes % 1 == 0);
}

proof fn lemma_rounding_is_close(n: nat, d: nat)
    requires
        d > 0,
    ensures
        2 * (round_half_even(n, d) * d) <= 2 * n + d,
        2 * n <= 2 * (round_half_even(n, d) * d) + d,
{
    let q = n / d;
    let r = n % d;
    assert(n == d * q + r && r < d) by (nonlinear_arith)
        requires
            d > 0,
            q == n / d,
            r == n % d,
    ;
    assert((q + 1) * d == d * q + d && q * d == d * q) by (nonlinear_arith);
}

proof fn lemma_spacing_is_positive(n: nat, step: nat)
    requires
        step > 0,
    ensures
        spacing(n, step) > 0,
    decreases n - step,
{
    if n >= 0x20_0000_0000_0000 * step {
        lemma_spacing_is_positive(n, 2 * step);
    }
}

/// The double nearest to a number is off by half of the distance between neighbouring doubles at
/// most.
pub proof fn law_nearest_double_is_close(n: nat)
    ensures
        2 * nearest_double(n) <= 2 * n + spacing(n, 1),
        2 * n <= 2 * nearest_double(n) + spacing(n, 1),
{
    lemma_spacing_is_positive(n, 1);
    lemma_rounding_is_close(n, spacing(n, 1));
}

/// What is shown of a size, taken as a double, is off by half a tenth of the unit at most, and the
/// unit is the one in which the size is at least one and less than 1024, as far as bytes and
/// gigabytes allow.
pub proof fn law_shown_size_is_close(bytes: nat)
    ensures
        ({
            let size = nearest_double(bytes);
            let unit = unit_bytes(unit_of(size));
            &&& 2 * (size_tenths(bytes) * unit) <= 20 * size + unit
            &&& 20 * size <= 2 * (size_tenths(bytes) * unit) + unit
            &&& unit_of(size) > 0 ==> size >= unit
            &&& unit_of(size) < 3 ==> size < 1024 * unit
        }),
{
    let size = nearest_double(bytes);
    lemma_rounding_is_close(10 * size, unit_bytes(unit_of(size)));
}

// ---- what is counted, found and measured ----

/// The dependency is declared under this very name.
pub open spec fn exactly(d: Dependency, name: Seq<char>) -> bool {
    &&& d.rename is Some ==> d.rename->0@ == name
    &&& d.rename is None ==> d.name@ == name
}

/// The dependency is declared under a name that reads the same with underscores for its hyphens.
pub open spec fn with_underscores(d: Dependency, name: Seq<char>) -> bool {
    exists|given: Seq<char>| #[trigger]
        exactly(d, given) && given.len() == name.len() && forall|c: int|
            0 <= c < name.len() ==> #[trigger] name[c] == if given[c] == '-' {
                '_'
            } else {
                given[c]
            }
}

/// The dependency is declared on a package of this name, and not renamed.
pub open spec fn on_package(d: Dependency, package: Option<Seq<char>>) -> bool {
    d.rename is None && package == Some(d.name@)
}

/// The declaration at `i` is the one that a resolved dependency comes from: the first under its very
/// name; where there is none, the first under a name that reads the same with underscores; where
/// there is none either, the first on its package.
pub open spec fn declares(
    declared: Seq<Dependency>,
    name: Seq<char>,
    package: Option<Seq<char>>,
    i: int,
) -> bool {
    let no_exact = forall|j: int| 0 <= j < declared.len() ==> !exactly(#[trigger] declared[j], name);
    let no_similar = forall|j: int|
        0 <= j < declared.len() ==> !with_underscores(#[trigger] declared[j], name);
    &&& 0 <= i < declared.len()
    &&& {
        ||| exactly(declared[i], name) && forall|j: int|
            0 <= j < i ==> !exactly(#[trigger] declared[j], name)
        ||| no_exact && with_underscores(declared[i], name) && forall|j: int|
            0 <= j < i ==> !with_underscores(#[trigger] declared[j], name)
        ||| no_exact && no_similar && on_package(declared[i], package) && forall|j: int|
            0 <= j < i ==> !on_package(#[trigger] declared[j], package)
    }
}

/// No declaration is the one that the resolved dependency comes from.
pub open spec fn undeclared(
    declared: Seq<Dependency>,
    name: Seq<char>,
    package: Option<Seq<char>>,
) -> bool {
    forall|j: int|
        0 <= j < declared.len() ==> !exactly(#[trigger] declared[j], name) && !with_underscores(
            declared[j],
            name,
        ) && !on_package(declared[j], package)
}

/// A feature that is on is called like the dependency, or names it behind `dep:`.
pub open spec fn has_its_feature(features: Seq<String>, d: Dependency) -> bool {
    exists|k: int|
        0 <= k < features.len() && {
            ||| exactly(d, (#[trigger] features[k])@)
            ||| begins_with(features[k]@, "dep:"@) && exactly(
                d,
                features[k]@.skip("dep:"@.len() as int),
            )
        }
}

proof fn lemma_exactly(d: Dependency, name: Seq<char>)
    ensures
        exactly(d, name) <==> local_name(d) == name,
        exactly(d, local_name(d)),
{
}

proof fn lemma_with_underscores(d: Dependency, name: Seq<char>)
    ensures
        with_underscores(d, name) <==> library_name(local_name(d)) == name,
{
    let given = local_name(d);
    lemma_exactly(d, given);
    if with_underscores(d, name) {
        let g = choose|g: Seq<char>| #[trigger]
            exactly(d, g) && g.len() == name.len() && forall|c: int|
                0 <= c < name.len() ==> #[trigger] name[c] == if g[c] == '-' {
                    '_'
                } else {
                    g[c]
                };
        lemma_exactly(d, g);
        assert(library_name(given) =~= name);
    }
    if library_name(given) == name {
        assert forall|c: int| 0 <= c < name.len() implies #[trigger] name[c] == if given[c] == '-' {
            '_'
        } else {
            given[c]
        } by {
            assert(library_name(given)[c] == name[c]);
        }
    }
}

proof fn lemma_first_called(declared: Seq<Dependency>, name: Seq<char>, i: int)
    ensures
        0 <= i < declared.len() && exactly(declared[i], name) && (forall|j: int|
            0 <= j < i ==> !exactly(#[trigger] declared[j], name)) ==> first_called(declared, name)
            == Some(declared[i]),
        (forall|j: int| 0 <= j < declared.len() ==> !exactly(#[trigger] declared[j], name))
            ==> first_called(declared, name) is None,
    decreases declared.len(),
{
    if declared.len() > 0 {
        let rest = declared.skip(1);
        assert(forall|j: int| 0 <= j < rest.len() ==> #[trigger] rest[j] == declared[j + 1]);
        lemma_exactly(declared[0], name);
        lemma_first_called(rest, name, i - 1);
        if 0 < i < declared.len() && exactly(declared[i], name) && (forall|j: int|
            0 <= j < i ==> !exactly(#[trigger] declared[j], name)) {
            assert(rest[i - 1] == declared[i]);
            assert(!exactly(declared[0], name));
        }
    }
}

proof fn lemma_first_known_as(declared: Seq<Dependency>, name: Seq<char>, i: int)
    ensures
        0 <= i < declared.len() && with_underscores(declared[i], name) && (forall|j: int|
            0 <= j < i ==> !with_underscores(#[trigger] declared[j], name)) ==> first_known_as(
            declared,
            name,
        ) == Some(declared[i]),
        (forall|j: int| 0 <= j < declared.len() ==> !with_underscores(#[trigger] declared[j], name))
            ==> first_known_as(declared, name) is None,
    decreases declared.len(),
{
    if declared.len() > 0 {
        let rest = declared.skip(1);
        assert(forall|j: int| 0 <= j < rest.len() ==> #[trigger] rest[j] == declared[j + 1]);
        lemma_with_underscores(declared[0], name);
        lemma_first_known_as(rest, name, i - 1);
        if 0 < i < declared.len() && with_underscores(declared[i], name) && (forall|j: int|
            0 <= j < i ==> !with_underscores(#[trigger] declared[j], name)) {
            assert(rest[i - 1] == declared[i]);
            assert(!with_underscores(declared[0], name));
        }
    }
}

proof fn lemma_first_on(declared: Seq<Dependency>, package: Seq<char>, i: int)
    ensures
        0 <= i < declared.len() && on_package(declared[i], Some(package)) && (forall|j: int|
            0 <= j < i ==> !on_package(#[trigger] declared[j], Some(package))) ==> first_on(
            declared,
            package,
        ) == Some(declared[i]),
        (forall|j: int| 0 <= j < declared.len() ==> !on_package(#[trigger] declared[j], Some(package)))
            ==> first_on(declared, package) is None,
    decreases declared.len(),
{
    if declared.len() > 0 {
        let rest = declared.skip(1);
        assert(forall|j: int| 0 <= j < rest.len() ==> #[trigger] rest[j] == declared[j + 1]);
        lemma_first_on(rest, package, i - 1);
        if 0 < i < declared.len() && on_package(declared[i], Some(package)) && (forall|j: int|
            0 <= j < i ==> !on_package(#[trigger] declared[j], Some(package))) {
            assert(rest[i - 1] == declared[i]);
            assert(!on_package(declared[0], Some(package)));
        }
    }
}

proof fn lemma_declared_as(
    declared: Seq<Dependency>,
    name: Seq<char>,
    package: Option<Seq<char>>,
    i: int,
)
    ensures
        declares(declared, name, package, i) ==> declared_as(declared, name, package) == Some(
            declared[i],
        ),
        undeclared(declared, name, package) ==> declared_as(declared, name, package) is None,
{
    lemma_first_called(declared, name, i);
    lemma_first_known_as(declared, name, i);
    if package is Some {
        lemma_first_on(declared, package->0, i);
    }
}

proof fn lemma_has_its_feature(features: Seq<String>, d: Dependency)
    ensures
        has_its_feature(features, d) <==> turned_on(features, local_name(d)),
{
    let name = local_name(d);
    let n = "dep:"@.len() as int;
    if has_its_feature(features, d) {
        let k = choose|k: int|
            0 <= k < features.len() && {
                ||| exactly(d, (#[trigger] features[k])@)
                ||| begins_with(features[k]@, "dep:"@) && exactly(
                    d,
                    features[k]@.skip("dep:"@.len() as int),
                )
            };
        let feature = features[k]@;
        assert(begins_with(feature, "dep:"@) ==> feature =~= "dep:"@ + feature.skip(n));
        assert(feature == name || feature == "dep:"@ + name);
    }
    if turned_on(features, name) {
        let k = choose|k: int|
            0 <= k < features.len() && {
                ||| (#[trigger] features[k])@ == name
                ||| features[k]@ == "dep:"@ + name
            };
        let feature = features[k]@;
        if feature == "dep:"@ + name {
            assert(feature.take(n) =~= "dep:"@);
            assert(feature.skip(n) =~= name);
        }
        assert(exactly(d, features[k]@) || (begins_with(feature, "dep:"@) && exactly(
            d,
            feature.skip(n),
        )));
    }
}

/// The node at `n` and the package at `p` are what is known of `id`: the last ones with it.
pub open spec fn known_at(m: Metadata, resolve: Resolve, id: Seq<char>, n: int, p: int) -> bool {
    &&& 0 <= n < resolve.nodes@.len() && resolve.nodes@[n].id@ == id
    &&& forall|j: int| n < j < resolve.nodes@.len() ==> (#[trigger] resolve.nodes@[j]).id@ != id
    &&& 0 <= p < m.packages@.len() && m.packages@[p].id@ == id
    &&& forall|j: int| p < j < m.packages@.len() ==> (#[trigger] m.packages@[j]).id@ != id
}

proof fn lemma_node_of(nodes: Seq<Node>, id: Seq<char>, n: int)
    ensures
        0 <= n < nodes.len() && nodes[n].id@ == id && (forall|j: int|
            n < j < nodes.len() ==> (#[trigger] nodes[j]).id@ != id) ==> node_of(nodes, id) == Some(
            nodes[n],
        ),
        (forall|j: int| 0 <= j < nodes.len() ==> (#[trigger] nodes[j]).id@ != id) ==> node_of(
            nodes,
            id,
        ) is None,
    decreases nodes.len(),
{
    if nodes.len() > 0 {
        let before = nodes.drop_last();
        assert(forall|j: int| 0 <= j < before.len() ==> #[trigger] before[j] == nodes[j]);
        lemma_node_of(before, id, n);
        if nodes[nodes.len() - 1].id@ != id && 0 <= n < before.len() {
            assert(before[n] == nodes[n]);
        }
    }
}

proof fn lemma_package_of(packages: Seq<Package>, id: Seq<char>, p: int)
    ensures
        0 <= p < packages.len() && packages[p].id@ == id && (forall|j: int|
            p < j < packages.len() ==> (#[trigger] packages[j]).id@ != id) ==> package_of(
            packages,
            id,
        ) == Some(packages[p]),
        (forall|j: int| 0 <= j < packages.len() ==> (#[trigger] packages[j]).id@ != id)
            ==> package_of(packages, id) is None,
    decreases packages.len(),
{
    if packages.len() > 0 {
        let before = packages.drop_last();
        assert(forall|j: int| 0 <= j < before.len() ==> #[trigger] before[j] == packages[j]);
        lemma_package_of(before, id, p);
        if packages[packages.len() - 1].id@ != id && 0 <= p < before.len() {
            assert(before[p] == packages[p]);
        }
    }
}

/// A dependency that some kind other than development lists, or none at all, is built with its
/// package unless it is optional and no feature turns it on: where the closure holds the package, it
/// holds the dependency.
pub proof fn law_dependency_is_built_with_its_package(
    m: Metadata,
    resolve: Resolve,
    id: Seq<char>,
    n: int,
    p: int,
    k: int,
    i: int,
)
    requires
        known_at(m, resolve, id, n, p),
        0 <= k < resolve.nodes@[n].deps@.len(),
        ({
            let dep = resolve.nodes@[n].deps@[k];
            let declared = m.packages@[p].dependencies@;
            let package = package_name(m.packages@, dep.pkg@);
            &&& dep.dep_kinds@.len() == 0 || exists|j: int|
                0 <= j < dep.dep_kinds@.len() && !(#[trigger] dep.dep_kinds@[j] is Development)
            &&& {
                ||| undeclared(declared, dep.name@, package)
                ||| declares(declared, dep.name@, package, i) && (!declared[i].optional
                    || has_its_feature(resolve.nodes@[n].features@, declared[i]))
            }
        }),
        closure(m, resolve).contains(id),
    ensures
        closure(m, resolve).contains(resolve.nodes@[n].deps@[k].pkg@),
{
    let node = resolve.nodes@[n];
    let pkg = m.packages@[p];
    let dep = node.deps@[k];
    lemma_node_of(resolve.nodes@, id, n);
    lemma_package_of(m.packages@, id, p);
    lemma_declared_as(pkg.dependencies@, dep.name@, package_name(m.packages@, dep.pkg@), i);
    if 0 <= i < pkg.dependencies@.len() {
        lemma_has_its_feature(node.features@, pkg.dependencies@[i]);
    }
    assert(active(m.packages@, node, pkg, dep));
    assert(node.deps@[k].pkg@ == dep.pkg@);
    assert(needs(m.packages@, resolve.nodes@, id, dep.pkg@));
    lemma_walk_extends(m, resolve, id, dep.pkg@);
}

/// The dependency at `k` of the node at `n` is not built with the package at `p`: every kind that it
/// is listed under is development, and there is one, or it is declared as optional and no feature
/// turns it on.
pub open spec fn left_out(m: Metadata, resolve: Resolve, n: int, p: int, k: int) -> bool {
    let dep = resolve.nodes@[n].deps@[k];
    let declared = m.packages@[p].dependencies@;
    ||| dep.dep_kinds@.len() > 0 && forall|j: int|
        0 <= j < dep.dep_kinds@.len() ==> #[trigger] dep.dep_kinds@[j] is Development
    ||| exists|i: int| #[trigger]
        declares(declared, dep.name@, package_name(m.packages@, dep.pkg@), i)
            && declared[i].optional && !has_its_feature(resolve.nodes@[n].features@, declared[i])
}

/// A package is in the closure only for a reason: the walk starts there, or the closure holds
/// another package with a dependency on it that is not left out. One without a node or without a
/// package of its own leads nowhere.
pub proof fn law_nothing_is_built_without_a_reason(
    m: Metadata,
    resolve: Resolve,
    to: Seq<char>,
)
    requires
        closure(m, resolve).contains(to),
    ensures
        starts(m, resolve).contains(to) || exists|from: Seq<char>, n: int, p: int, k: int|
            closure(m, resolve).contains(from) && #[trigger] known_at(m, resolve, from, n, p) && 0
                <= k < resolve.nodes@[n].deps@.len() && (
            #[trigger] resolve.nodes@[n].deps@[k]).pkg@ == to && !left_out(m, resolve, n, p, k),
{
    let walk = choose|walk: Seq<Seq<char>>| #[trigger]
        is_walk(m, resolve, walk) && walk.last() == to;
    if walk.len() == 1 {
        assert(walk[0] == to);
    } else {
        let last = walk.len() - 2;
        let from = walk[last];
        assert(needs(m.packages@, resolve.nodes@, walk[last], walk[last + 1]));
        let shorter = walk.drop_last();
        assert forall|i: int| 0 <= i < shorter.len() - 1 implies needs(
            m.packages@,
            resolve.nodes@,
            #[trigger] shorter[i],
            shorter[i + 1],
        ) by {
            assert(shorter[i] == walk[i]);
            assert(shorter[i + 1] == walk[i + 1]);
        }
        assert(is_walk(m, resolve, shorter));
        assert(shorter.last() == from);
        assert(reached(m, resolve, from));
        let n = lemma_node_is_listed(resolve.nodes@, from);
        let p = lemma_package_is_listed(m.packages@, from);
        let node = resolve.nodes@[n];
        let pkg = m.packages@[p];
        lemma_node_of(resolve.nodes@, from, n);
        lemma_package_of(m.packages@, from, p);
        let k = choose|k: int|
            0 <= k < node.deps@.len() && (#[trigger] node.deps@[k]).pkg@ == to && active(
                m.packages@,
                node,
                pkg,
                node.deps@[k],
            );
        let dep = node.deps@[k];
        if left_out(m, resolve, n, p, k) {
            assert(!dev_only(dep));
            let i = choose|i: int| #[trigger]
                declares(pkg.dependencies@, dep.name@, package_name(m.packages@, dep.pkg@), i)
                    && pkg.dependencies@[i].optional && !has_its_feature(
                    node.features@,
                    pkg.dependencies@[i],
                );
            lemma_declared_as(pkg.dependencies@, dep.name@, package_name(m.packages@, dep.pkg@), i);
            lemma_has_its_feature(node.features@, pkg.dependencies@[i]);
        }
        assert(known_at(m, resolve, from, n, p));
        assert(resolve.nodes@[n].deps@[k].pkg@ == to);
    }
}

proof fn lemma_node_is_listed(nodes: Seq<Node>, id: Seq<char>) -> (n: int)
    requires
        node_of(nodes, id) is Some,
    ensures
        0 <= n < nodes.len(),
        nodes[n].id@ == id,
        forall|j: int| n < j < nodes.len() ==> (#[trigger] nodes[j]).id@ != id,
    decreases nodes.len(),
{
    if nodes.last().id@ == id {
        nodes.len() - 1
    } else {
        let n = lemma_node_is_listed(nodes.drop_last(), id);
        assert(forall|j: int|
            0 <= j < nodes.len() - 1 ==> #[trigger] nodes.drop_last()[j] == nodes[j]);
        assert(nodes[n].id@ == id);
        assert forall|j: int| n < j < nodes.len() implies (#[trigger] nodes[j]).id@ != id by {
            if j < nodes.len() - 1 {
                assert(nodes.drop_last()[j] == nodes[j]);
            }
        }
        n
    }
}

proof fn lemma_package_is_listed(packages: Seq<Package>, id: Seq<char>) -> (p: int)
    requires
        package_of(packages, id) is Some,
    ensures
        0 <= p < packages.len(),
        packages[p].id@ == id,
        forall|j: int| p < j < packages.len() ==> (#[trigger] packages[j]).id@ != id,
    decreases packages.len(),
{
    if packages.last().id@ == id {
        packages.len() - 1
    } else {
        let p = lemma_package_is_listed(packages.drop_last(), id);
        assert(forall|j: int|
            0 <= j < packages.len() - 1 ==> #[trigger] packages.drop_last()[j] == packages[j]);
        assert(packages[p].id@ == id);
        assert forall|j: int| p < j < packages.len() implies (#[trigger] packages[j]).id@ != id by {
            if j < packages.len() - 1 {
                assert(packages.drop_last()[j] == packages[j]);
            }
        }
        p
    }
}

/// The walk starts at the root, or at every member of a workspace without one, and what is counted
/// is the closure, or every known package where nothing was resolved. The package of an id is known
/// by the name that is listed last for it.
pub proof fn law_count_starts_at_the_root(m: Metadata, id: Seq<char>, p: int)
    ensures
        m.resolve is None ==> closure_size(m) == m.packages@.len(),
        m.resolve is Some ==> {
            let resolve = m.resolve->0;
            &&& closure_size(m) == closure(m, resolve).len()
            &&& resolve.root is Some ==> (starts(m, resolve).contains(id) <==> id
                == resolve.root->0@)
            &&& resolve.root is None ==> (starts(m, resolve).contains(id) <==> exists|i: int|
                0 <= i < m.workspace_members@.len() && (#[trigger] m.workspace_members@[i])@ == id)
        },
        0 <= p < m.packages@.len() && m.packages@[p].id@ == id && (forall|j: int|
            p < j < m.packages@.len() ==> (#[trigger] m.packages@[j]).id@ != id) ==> package_name(
            m.packages@,
            id,
        ) == Some(m.packages@[p].name@),
        (forall|j: int| 0 <= j < m.packages@.len() ==> (#[trigger] m.packages@[j]).id@ != id)
            ==> package_name(m.packages@, id) is None,
{
    lemma_package_of(m.packages@, id, p);
    if m.resolve is Some {
        let resolve = m.resolve->0;
        let all = starts(m, resolve);
        if resolve.root is Some {
            assert(all[0] == resolve.root->0@);
        } else {
            if all.contains(id) {
                let i = choose|i: int| 0 <= i < all.len() && all[i] == id;
                assert(m.workspace_members@[i]@ == id);
            }
            if exists|i: int|
                0 <= i < m.workspace_members@.len() && (#[trigger] m.workspace_members@[i])@ == id {
                let i = choose|i: int|
                    0 <= i < m.workspace_members@.len() && (#[trigger] m.workspace_members@[i])@
                        == id;
                assert(all[i] == id);
            }
        }
    }
}

/// The host is what stands after `host: ` in the first line that begins so, the one at `i`.
pub proof fn law_first_host_line_tells_the_host(lines: Seq<Seq<char>>, i: int, host: Seq<char>)
    ensures
        0 <= i < lines.len() && lines[i] == "host: "@ + host && (forall|j: int|
            0 <= j < i ==> !begins_with(#[trigger] lines[j], "host: "@)) ==> host_in(lines) == Some(
            host,
        ),
        (forall|j: int| 0 <= j < lines.len() ==> !begins_with(#[trigger] lines[j], "host: "@))
            ==> host_in(lines) is None,
    decreases lines.len(),
{
    if lines.len() > 0 {
        let rest = lines.skip(1);
        assert(forall|j: int| 0 <= j < rest.len() ==> #[trigger] rest[j] == lines[j + 1]);
        law_first_host_line_tells_the_host(rest, i - 1, host);
        if 0 <= i < lines.len() && lines[i] == "host: "@ + host && (forall|j: int|
            0 <= j < i ==> !begins_with(#[trigger] lines[j], "host: "@)) {
            if i == 0 {
                assert(lines[0].take("host: "@.len() as int) =~= "host: "@);
                assert(lines[0].skip("host: "@.len() as int) =~= host);
            } else {
                assert(!begins_with(lines[0], "host: "@));
                assert(rest[i - 1] == lines[i]);
            }
        }
    }
}

/// A unit graph has as many units as its `units` lists, and none can be counted where it lists none.
pub proof fn law_units_are_those_listed(graph: serde_json::Value)
    ensures
        units_in(graph) is Some <==> member_of(graph, "units"@) is Some && items_of(
            member_of(graph, "units"@)->0,
        ) is Some,
        units_in(graph) is Some ==> units_in(graph)->0 == items_of(
            member_of(graph, "units"@)->0,
        )->0.len() as usize,
{
}

/// A directory takes up what its entries take up, one after the other: a file its length, a directory
/// what is in it, and what cannot be read nothing.
pub proof fn law_directory_is_the_sum_of_its_entries(
    entries: Seq<DirEntry>,
    len: u64,
    inner: Vec<DirEntry>,
)
    ensures
        dir_bytes(seq![], 0) == 0,
        dir_bytes(entries.push(DirEntry::File(len)), entries.len() + 1) == dir_bytes(
            entries,
            entries.len(),
        ) + len,
        dir_bytes(entries.push(DirEntry::Unreadable), entries.len() + 1) == dir_bytes(
            entries,
            entries.len(),
        ),
        dir_bytes(entries.push(DirEntry::Dir(inner)), entries.len() + 1) == dir_bytes(
            entries,
            entries.len(),
        ) + dir_bytes(inner@, inner@.len()),
{
    lemma_same_front(entries, entries.push(DirEntry::File(len)), entries.len());
    lemma_same_front(entries, entries.push(DirEntry::Unreadable), entries.len());
    lemma_same_front(entries, entries.push(DirEntry::Dir(inner)), entries.len());
    reveal_with_fuel(dir_bytes, 2);
    reveal_with_fuel(entry_bytes, 2);
}

proof fn lemma_same_front(a: Seq<DirEntry>, b: Seq<DirEntry>, n: nat)
    requires
        n <= a.len(),
        n <= b.len(),
        forall|i: int| 0 <= i < n ==> a[i] == b[i],
    ensures
        dir_bytes(a, n) == dir_bytes(b, n),
    decreases n,
{
    if n > 0 {
        lemma_same_front(a, b, (n - 1) as nat);
        assert(a[n - 1] == b[n - 1]);
    }
}

/// A size is shown in the unit in which it is at least one and less than 1024, as far as bytes and
/// gigabytes allow, by a whole number, a dot and one more digit that together are the tenths nearest
/// to it.
pub proof fn law_size_is_shown_in_its_unit(bytes: nat)
    requires
        bytes < 0x20_0000_0000_0000,
    ensures
        exists|tenths: nat| #[trigger] shows_tenths(size_text(bytes), bytes, tenths),
        bytes < 1024 ==> size_text(bytes) == decimal(bytes) + "."@ + "0"@ + " "@ + "B"@,
{
    law_small_sizes_are_exact(bytes);
    law_shown_size_is_close(bytes);
    let tenths = size_tenths(bytes);
    law_printed_number_reads_back(tenths % 10);
    assert(decimal(tenths % 10) =~= seq![digit(tenths % 10)]);
    assert(shows_tenths(size_text(bytes), bytes, tenths));
    if bytes < 1024 {
        reveal_strlit("0");
        assert((10 * bytes) / 1 == 10 * bytes && (10 * bytes) % 1 == 0);
        assert(tenths == 10 * bytes);
        assert(seq![digit(0)] =~= "0"@);
    }
}

/// The text shows so many tenths of the unit for `bytes`, and no other number of tenths is nearer.
pub open spec fn shows_tenths(text: Seq<char>, bytes: nat, tenths: nat) -> bool {
    let number = decimal(tenths / 10) + "."@ + decimal(tenths % 10) + " "@;
    &&& bytes < 0x400 ==> text == number + "B"@ && tenths == 10 * bytes
    &&& 0x400 <= bytes < 0x10_0000 ==> text == number + "KB"@ && 2 * tenths * 0x400 <= 20 * bytes
        + 0x400 && 20 * bytes <= 2 * tenths * 0x400 + 0x400
    &&& 0x10_0000 <= bytes < 0x4000_0000 ==> text == number + "MB"@ && 2 * tenths * 0x10_0000 <= 20
        * bytes + 0x10_0000 && 20 * bytes <= 2 * tenths * 0x10_0000 + 0x10_0000
    &&& 0x4000_0000 <= bytes ==> text == number + "GB"@ && 2 * tenths * 0x4000_0000 <= 20 * bytes
        + 0x4000_0000 && 20 * bytes <= 2 * tenths * 0x4000_0000 + 0x4000_0000
}

} // verus!
