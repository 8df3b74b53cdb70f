//! What is settled before the build starts: what is being built, and whether there is something to
//! run.

use crate::commands::{Verb, VerbView};
use crate::events::{Event, EventView};
use crate::metadata::{Metadata, Package, RootPackage, Target, TargetKind};
use crate::metrics::{build_closure_size, closure_size};
use crate::text::{begins_with, join, joined, push_all, push_text, same_text, strip_prefix};
use vstd::prelude::*;
use vstd::string::*;

verus! {

/// The target is a binary.
pub open spec fn is_bin(target: Target) -> bool {
    exists|k: int| 0 <= k < target.kind@.len() && #[trigger] target.kind@[k] is Bin
}

/// The names of the binaries among the targets, in order.
pub open spec fn bins_in(targets: Seq<Target>) -> Seq<Seq<char>>
    decreases targets.len(),
{
    if targets.len() == 0 {
        seq![]
    } else if is_bin(targets.last()) {
        bins_in(targets.drop_last()).push(targets.last().name@)
    } else {
        bins_in(targets.drop_last())
    }
}

/// The names of the binaries of the root package; none without a root package.
pub open spec fn bin_names(root: Option<RootPackage>) -> Seq<Seq<char>> {
    match root {
        Some(root) => bins_in(root.targets@),
        None => seq![],
    }
}

/// The argument names what to run, in itself or in the argument that follows.
pub open spec fn gives_target(arg: Seq<char>) -> bool {
    ||| arg == "--bin"@
    ||| arg == "--example"@
    ||| begins_with(arg, "--bin="@)
    ||| begins_with(arg, "--example="@)
}

/// The arguments name what to run.
pub open spec fn target_given(args: Seq<String>) -> bool {
    exists|k: int| 0 <= k < args.len() && gives_target((#[trigger] args[k])@)
}

/// The binary that `cargo run` runs where nothing else says which.
pub open spec fn default_of(root: Option<RootPackage>) -> Option<Seq<char>> {
    match root {
        Some(root) => root.default_run.deep_view(),
        None => None,
    }
}

/// The binary that the package's default settles on: the arguments name nothing to run, and there
/// are several binaries to choose from.
pub open spec fn settled_by_default(
    verb: VerbView,
    args: Seq<String>,
    bins: Seq<Seq<char>>,
    default_run: Option<Seq<char>>,
) -> Option<Seq<char>> {
    if verb is Run && !target_given(args) && bins.len() > 1 {
        default_run
    } else {
        None
    }
}

/// Why `cargo run` would refuse: it needs exactly one runnable target to know what to execute
/// after the build, unless the arguments name one or the package has a default.
pub open spec fn refusal(
    verb: VerbView,
    args: Seq<String>,
    bins: Seq<Seq<char>>,
    default_run: Option<Seq<char>>,
) -> Option<Seq<char>> {
    if !(verb is Run) || target_given(args) || bins.len() == 1 {
        None
    } else if bins.len() == 0 {
        Some("error: a bin target must be available for `cargo run`\n"@)
    } else if default_run is Some {
        None
    } else {
        Some(
            "error: `cargo run` requires --bin or --example because multiple binaries are available: "@
                + joined(bins, ", "@) + "\n"@,
        )
    }
}

/// The arguments of the compile step: a binary that the default settles on is named, so that it is
/// the one that is built and run.
pub open spec fn settled_args(args: Seq<Seq<char>>, settled: Option<Seq<char>>) -> Seq<Seq<char>> {
    match settled {
        Some(name) => args + seq!["--bin"@, name],
        None => args,
    }
}

/// The name of the root package, or a placeholder.
pub open spec fn project_of(root: Option<RootPackage>) -> Seq<char> {
    match root {
        Some(root) => root.name@,
        None => "project"@,
    }
}

/// The id and the name of each package.
pub open spec fn names_of(packages: Seq<Package>) -> Seq<(Seq<char>, Seq<char>)> {
    packages.map_values(|p: Package| (p.id@, p.name@))
}

/// The name and the version of each package.
pub open spec fn versions_of(packages: Seq<Package>) -> Seq<(Seq<char>, Seq<char>)> {
    packages.map_values(|p: Package| (p.name@, p.version@))
}

/// What is known once `cargo metadata` has resolved.
pub open spec fn ready_of(m: Metadata) -> EventView {
    EventView::Ready {
        project: project_of(m.root_package),
        target_dir: m.target_directory@,
        total: closure_size(m) as usize,
        versions: versions_of(m.packages@),
        names: names_of(m.packages@),
    }
}

fn has_kind_bin(target: &Target) -> (r: bool)
    ensures
        r == is_bin(*target),
{
    let mut i: usize = 0;
    while i < target.kind.len()
        invariant
            i <= target.kind.len(),
            forall|k: int| 0 <= k < i ==> !(#[trigger] target.kind@[k] is Bin),
        decreases target.kind.len() - i,
    {
        match target.kind[i] {
            TargetKind::Bin => {
                assert(target.kind@[i as int] is Bin);
                return true;
            },
            _ => {},
        }
        i = i + 1;
    }
    false
}

fn collect_bins(root: &Option<RootPackage>) -> (r: Vec<String>)
    ensures
        r.deep_view() == bin_names(*root),
{
    let mut out: Vec<String> = Vec::new();
    assert(out.deep_view() =~= Seq::<Seq<char>>::empty());
    if let Some(root) = root {
        let targets = &root.targets;
        let mut i: usize = 0;
        assert(targets@.take(0) =~= Seq::<Target>::empty());
        while i < targets.len()
            invariant
                i <= targets.len(),
                out.deep_view() == bins_in(targets@.take(i as int)),
            decreases targets.len() - i,
        {
            let ghost before = out.deep_view();
            let ghost next = targets@.take(i + 1);
            assert(next.drop_last() =~= targets@.take(i as int));
            if has_kind_bin(&targets[i]) {
                out.push(targets[i].name.clone());
                assert(out.deep_view() =~= before.push(targets[i as int].name@));
            }
            i = i + 1;
        }
        assert(targets@.take(i as int) =~= targets@);
    }
    out
}

fn is_target(arg: &str) -> (r: bool)
    ensures
        r == gives_target(arg@),
{
    same_text(arg, "--bin") || same_text(arg, "--example") || strip_prefix(arg, "--bin=").is_some()
        || strip_prefix(arg, "--example=").is_some()
}

fn names_target(args: &Vec<String>) -> (r: bool)
    ensures
        r == target_given(args@),
{
    let mut i: usize = 0;
    while i < args.len()
        invariant
            i <= args.len(),
            forall|k: int| 0 <= k < i ==> !gives_target((#[trigger] args@[k])@),
        decreases args.len() - i,
    {
        if is_target(args[i].as_str()) {
            assert(gives_target(args@[i as int]@));
            return true;
        }
        i = i + 1;
    }
    false
}

fn has_default(root: &Option<RootPackage>) -> (r: bool)
    ensures
        r == (default_of(*root) is Some),
{
    match root {
        Some(root) => root.default_run.is_some(),
        None => false,
    }
}

/// Replicates `cargo run`'s own ambiguity check, since the build picks the binary to run itself
/// instead of shelling out to `cargo run`.
fn refuse(verb: &Verb, args: &Vec<String>, root: &Option<RootPackage>) -> (r: Option<String>)
    ensures
        r.deep_view() == refusal(verb@, args@, bin_names(*root), default_of(*root)),
{
    match verb {
        Verb::Run { .. } => {},
        _ => {
            return None;
        },
    }
    let bins = collect_bins(root);
    assert(bins.deep_view().len() == bins.len());
    if names_target(args) || bins.len() == 1 {
        return None;
    }
    if bins.len() == 0 {
        return Some("error: a bin target must be available for `cargo run`\n".to_owned());
    }
    if has_default(root) {
        return None;
    }
    let mut out =
        "error: `cargo run` requires --bin or --example because multiple binaries are available: ".to_owned();
    out.append(join(&bins, ", ").as_str());
    out.append("\n");
    Some(out)
}

fn collect_names(packages: &Vec<Package>) -> (r: Vec<(String, String)>)
    ensures
        r.deep_view() == names_of(packages@),
{
    let mut out: Vec<(String, String)> = Vec::new();
    let mut i: usize = 0;
    while i < packages.len()
        invariant
            i <= packages.len(),
            out.deep_view() == names_of(packages@).take(i as int),
        decreases packages.len() - i,
    {
        let ghost before = out.deep_view();
        out.push((packages[i].id.clone(), packages[i].name.clone()));
        proof {
            let pair = names_of(packages@)[i as int];
            assert(out.deep_view() =~= before.push(pair));
            assert(names_of(packages@).take(i + 1) =~= before.push(pair));
        }
        i = i + 1;
    }
    assert(out.deep_view() =~= names_of(packages@));
    out
}

fn collect_versions(packages: &Vec<Package>) -> (r: Vec<(String, String)>)
    ensures
        r.deep_view() == versions_of(packages@),
{
    let mut out: Vec<(String, String)> = Vec::new();
    let mut i: usize = 0;
    while i < packages.len()
        invariant
            i <= packages.len(),
            out.deep_view() == versions_of(packages@).take(i as int),
        decreases packages.len() - i,
    {
        let ghost before = out.deep_view();
        out.push((packages[i].name.clone(), packages[i].version.clone()));
        proof {
            let pair = versions_of(packages@)[i as int];
            assert(out.deep_view() =~= before.push(pair));
            assert(versions_of(packages@).take(i + 1) =~= before.push(pair));
        }
        i = i + 1;
    }
    assert(out.deep_view() =~= versions_of(packages@));
    out
}

/// Settles what is being built: the `Ready` event, or the error that `cargo run` would give for
/// want of one binary to run.
pub fn prepare(verb: &Verb, args: &Vec<String>, metadata: &Metadata) -> (r: Result<Event, String>)
    ensures
        r is Err <==> refusal(
            verb@,
            args@,
            bin_names(metadata.root_package),
            default_of(metadata.root_package),
        ) is Some,
        r matches Err(text) ==> refusal(
            verb@,
            args@,
            bin_names(metadata.root_package),
            default_of(metadata.root_package),
        ) == Some(text@),
        r matches Ok(event) ==> event.deep_view() == ready_of(*metadata),
{
    match refuse(verb, args, &metadata.root_package) {
        Some(text) => {
            return Err(text);
        },
        None => {},
    }
    let project = match &metadata.root_package {
        Some(root) => root.name.clone(),
        None => "project".to_owned(),
    };
    Ok(
        Event::Ready {
            project,
            target_dir: metadata.target_directory.clone(),
            total: build_closure_size(metadata),
            versions: collect_versions(&metadata.packages),
            names: collect_names(&metadata.packages),
        },
    )
}

/// The arguments that the compile step gets.
pub fn settle_args(verb: &Verb, args: &Vec<String>, metadata: &Metadata) -> (r: Vec<String>)
    ensures
        r.deep_view() == settled_args(
            args.deep_view(),
            settled_by_default(
                verb@,
                args@,
                bin_names(metadata.root_package),
                default_of(metadata.root_package),
            ),
        ),
{
    let mut out: Vec<String> = Vec::new();
    assert(out.deep_view() =~= Seq::<Seq<char>>::empty());
    push_all(&mut out, args);
    assert(out.deep_view() =~= args.deep_view());
    match verb {
        Verb::Run { .. } => {},
        _ => {
            return out;
        },
    }
    let bins = collect_bins(&metadata.root_package);
    assert(bins.deep_view().len() == bins.len());
    if names_target(args) || bins.len() <= 1 {
        return out;
    }
    if let Some(root) = &metadata.root_package {
        if let Some(name) = &root.default_run {
            push_text(&mut out, "--bin");
            push_text(&mut out, name.as_str());
            assert(out.deep_view() =~= args.deep_view() + seq!["--bin"@, name@]);
        }
    }
    out
}

/// Only `run` is ever refused, naming a binary or an example always settles which one to run, and
/// among several binaries so does the package's default.
pub proof fn law_only_an_unclear_run_is_refused(
    verb: VerbView,
    args: Seq<String>,
    bins: Seq<Seq<char>>,
    default_run: Option<Seq<char>>,
)
    ensures
        refusal(verb, args, bins, default_run) is Some <==> verb is Run && !target_given(args) && (
        bins.len() == 0 || (bins.len() > 1 && default_run is None)),
{
}

// ---- after the compile step ----

/// What happens once the compile step has ended.
#[derive(Clone, Copy, PartialEq, Eq, Structural, Debug)]
pub enum AfterCompile {
    /// The build is over.
    Done { ok: bool },
    /// The produced binaries are handed on, and the build is over.
    Execute,
    /// The test binaries run.
    RunTests,
}

/// What comes after a compile step that ended so: `build` is done, `run` executes what was built,
/// and `test` runs the test binaries, the latter two only where the build succeeded.
pub open spec fn follow_up(verb: VerbView, ok: bool) -> AfterCompile {
    match verb {
        VerbView::Build => AfterCompile::Done { ok },
        VerbView::Run(_) => if ok {
            AfterCompile::Execute
        } else {
            AfterCompile::Done { ok }
        },
        VerbView::Test(_) => if ok {
            AfterCompile::RunTests
        } else {
            AfterCompile::Done { ok }
        },
    }
}

/// Decides what comes after the compile step.
pub fn after_compile(verb: &Verb, ok: bool) -> (r: AfterCompile)
    ensures
        r == follow_up(verb@, ok),
{
    match verb {
        Verb::Build => AfterCompile::Done { ok },
        Verb::Run { .. } => if ok {
            AfterCompile::Execute
        } else {
            AfterCompile::Done { ok }
        },
        Verb::Test { .. } => if ok {
            AfterCompile::RunTests
        } else {
            AfterCompile::Done { ok }
        },
    }
}

// ---- what is settled, and what follows ----

/// The argument says what to run: `--bin` or `--example`, with the name behind `=` or in the argument
/// that follows.
pub open spec fn says_what_to_run(arg: Seq<char>) -> bool {
    ||| arg == "--bin"@ || arg == "--example"@
    ||| exists|name: Seq<char>| arg == #[trigger] ("--bin="@ + name)
    ||| exists|name: Seq<char>| arg == #[trigger] ("--example="@ + name)
}

proof fn lemma_says_what_to_run(arg: Seq<char>)
    ensures
        says_what_to_run(arg) <==> gives_target(arg),
{
    let (bin, example) = ("--bin="@, "--example="@);
    if begins_with(arg, bin) {
        assert(arg =~= bin + arg.skip(bin.len() as int));
    }
    if begins_with(arg, example) {
        assert(arg =~= example + arg.skip(example.len() as int));
    }
    if exists|name: Seq<char>| arg == #[trigger] (bin + name) {
        assert(arg.take(bin.len() as int) =~= bin);
    }
    if exists|name: Seq<char>| arg == #[trigger] (example + name) {
        assert(arg.take(example.len() as int) =~= example);
    }
}

/// `run` goes ahead where an argument says what to run, the one at `i`, where there is exactly one
/// binary, and where there are several and the package has a default. Without a binary it is refused,
/// and with several and nothing to choose by too, naming them all. No other verb is ever refused.
pub proof fn law_run_is_refused_where_cargo_would(
    verb: VerbView,
    args: Seq<String>,
    bins: Seq<Seq<char>>,
    default_run: Option<Seq<char>>,
    i: int,
)
    ensures
        ({
            let said = 0 <= i < args.len() && says_what_to_run(args[i]@);
            let silent = forall|k: int|
                0 <= k < args.len() ==> !says_what_to_run((#[trigger] args[k])@);
            let r = refusal(verb, args, bins, default_run);
            &&& !(verb is Run) || said || bins.len() == 1 || (bins.len() > 1 && default_run is Some)
                ==> r is None
            &&& verb is Run && silent && bins.len() == 0 ==> r == Some(
                "error: a bin target must be available for `cargo run`\n"@,
            )
            &&& verb is Run && silent && bins.len() > 1 && default_run is None ==> r == Some(
                "error: `cargo run` requires --bin or --example because multiple binaries are available: "@
                    + joined(bins, ", "@) + "\n"@,
            )
        }),
{
    assert forall|k: int| 0 <= k < args.len() implies says_what_to_run((#[trigger] args[k])@)
        == gives_target(args[k]@) by {
        lemma_says_what_to_run(args[k]@);
    }
}

/// The default is named to cargo exactly where it decides: among several binaries, where no argument
/// says what to run. Otherwise the arguments are left alone.
pub proof fn law_default_is_named_where_it_decides(
    verb: VerbView,
    args: Seq<String>,
    bins: Seq<Seq<char>>,
    default_run: Option<Seq<char>>,
    texts: Seq<Seq<char>>,
)
    ensures
        ({
            let silent = forall|k: int|
                0 <= k < args.len() ==> !says_what_to_run((#[trigger] args[k])@);
            let given = settled_args(texts, settled_by_default(verb, args, bins, default_run));
            &&& verb is Run && silent && bins.len() > 1 && default_run is Some ==> given
                == texts.push("--bin"@).push(default_run->0)
            &&& !(verb is Run && silent && bins.len() > 1 && default_run is Some) ==> given == texts
        }),
{
    assert forall|k: int| 0 <= k < args.len() implies says_what_to_run((#[trigger] args[k])@)
        == gives_target(args[k]@) by {
        lemma_says_what_to_run(args[k]@);
    }
    if default_run is Some {
        assert(texts + seq!["--bin"@, default_run->0] =~= texts.push("--bin"@).push(
            default_run->0,
        ));
    }
}

/// The binaries of a package are its targets of that kind, by name and in order.
pub proof fn law_binaries_are_the_bin_targets(root: RootPackage, targets: Seq<Target>, target: Target)
    ensures
        bins_in(seq![]).len() == 0,
        (exists|k: int| 0 <= k < target.kind@.len() && #[trigger] target.kind@[k] is Bin)
            ==> bins_in(targets.push(target)) == bins_in(targets).push(target.name@),
        (forall|k: int| 0 <= k < target.kind@.len() ==> !(#[trigger] target.kind@[k] is Bin))
            ==> bins_in(targets.push(target)) == bins_in(targets),
        bin_names(Some(root)) == bins_in(root.targets@),
        bin_names(None).len() == 0,
        default_of(None) is None,
        root.default_run is Some ==> default_of(Some(root)) == Some(root.default_run->0@),
        root.default_run is None ==> default_of(Some(root)) is None,
{
    assert(targets.push(target).drop_last() =~= targets);
}

/// What is known once the metadata has resolved: the root package's name or a placeholder, where the
/// build goes, how many packages it takes in, and every package's name by its id and version by its
/// name.
pub proof fn law_ready_tells_what_is_built(m: Metadata, i: int)
    requires
        0 <= i < m.packages@.len(),
    ensures
        ({
            let ready = ready_of(m);
            &&& ready is Ready
            &&& m.root_package is Some ==> ready->Ready_project == m.root_package->0.name@
            &&& m.root_package is None ==> ready->Ready_project == "project"@
            &&& ready->Ready_target_dir == m.target_directory@
            &&& ready->Ready_total == closure_size(m) as usize
            &&& ready->Ready_names.len() == m.packages@.len()
            &&& ready->Ready_names[i] == (m.packages@[i].id@, m.packages@[i].name@)
            &&& ready->Ready_versions.len() == m.packages@.len()
            &&& ready->Ready_versions[i] == (m.packages@[i].name@, m.packages@[i].version@)
        }),
{
}

/// After a failed compile step nothing runs, and the build is over as failed. After one that
/// succeeded, `build` is over, `run` executes what was built, and `test` runs the tests.
pub proof fn law_nothing_runs_after_a_failed_build(verb: VerbView, ok: bool)
    ensures
        !ok ==> follow_up(verb, ok) == (AfterCompile::Done { ok: false }),
        ok && verb is Build ==> follow_up(verb, ok) == (AfterCompile::Done { ok: true }),
        ok && verb is Run ==> follow_up(verb, ok) == AfterCompile::Execute,
        ok && verb is Test ==> follow_up(verb, ok) == AfterCompile::RunTests,
{
}

} // verus!
