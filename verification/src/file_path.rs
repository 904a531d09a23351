//! Every location that a build uses, derived from the configuration.
//!
//! A location is derived from the configured output directory or source
//! project, or from another location, by adjoining names. A [`PathResolver`]
//! remembers each location from the first time it is asked for: the same
//! question then has the same answer for as long as the resolver lives.

use crate::config::Config;
use vstd::prelude::*;

verus! {

/// The separator between the components of a path.
pub open spec fn sep() -> char {
    '/'
}

/// `name` adjoined to `base`: an absolute `name` replaces `base`; otherwise
/// `name` follows `base`, with one separator between them unless `base` is
/// empty or already ends in one.
pub open spec fn join(base: Seq<char>, name: Seq<char>) -> Seq<char> {
    if name.len() > 0 && name[0] == sep() {
        name
    } else if base.len() == 0 || base.last() == sep() {
        base + name
    } else {
        base + seq![sep()] + name
    }
}

/// Adjoins `name` to `base`.
pub fn path_join(base: &str, name: &str) -> (r: String)
    ensures
        r@ == join(base@, name@),
{
    let name_len = name.unicode_len();
    if name_len > 0 && name.get_char(0) == '/' {
        return String::from_str(name);
    }
    let base_len = base.unicode_len();
    let mut out = String::from_str(base);
    if base_len > 0 && base.get_char(base_len - 1) != '/' {
        proof {
            reveal_strlit("/");
            assert("/"@ =~= seq![sep()]);
        }
        out.append("/");
    }
    out.append(name);
    out
}

/// The name of a file that a build stamps with its time: the time stamp,
/// `infix`, the application's name and `suffix`.
pub open spec fn stamped(
    time: Seq<char>,
    infix: Seq<char>,
    app_name: Seq<char>,
    suffix: Seq<char>,
) -> Seq<char> {
    time + infix + app_name + suffix
}

/// Builds the name of a file that a build stamps with its time.
pub fn stamped_name(time: &str, infix: &str, app_name: &str, suffix: &str) -> (r: String)
    ensures
        r@ == stamped(time@, infix@, app_name@, suffix@),
{
    let mut out = String::from_str(time);
    out.append(infix);
    out.append(app_name);
    out.append(suffix);
    out
}

/// The locations that a build knows by name.
#[derive(Debug, Clone, Copy, PartialEq, Eq, Structural)]
pub enum PathName {
    Res,
    Apks,
    Aab,
    BaseZip,
    BaseDir,
    Root,
    Manifest,
    Assets,
    NewAssets,
    Lib,
    NewLib,
    BaseRoot,
    Unknown,
    NewUnknown,
    Kotlin,
    NewKotlin,
    Meta,
    NewMeta,
    Dex,
    BaseApk,
    ResourcesZip,
    App,
    ApkBuild,
    ApkDist,
    ApkUnSign,
    ApkZipalign,
    ApkSign,
}

/// No path is underivable at present: every derivation is a matter of
/// adjoining names. The type is there because a derivation rests on the one
/// before it, and the interface lets that one fail.
#[derive(Debug, Clone, Copy, PartialEq, Eq, Structural)]
pub enum PathError {
    /// The named location could not be derived.
    Underivable(PathName),
}

/// The location from which `name` is derived, if it is derived from another
/// location and not from the configuration.
pub open spec fn depends_on(name: PathName) -> Option<PathName> {
    match name {
        PathName::Res => None,
        PathName::Apks => None,
        PathName::Aab => None,
        PathName::BaseZip => None,
        PathName::BaseDir => None,
        PathName::Root => None,
        PathName::Manifest => Some(PathName::BaseDir),
        PathName::Assets => Some(PathName::Root),
        PathName::NewAssets => Some(PathName::BaseDir),
        PathName::Lib => Some(PathName::Root),
        PathName::NewLib => Some(PathName::BaseDir),
        PathName::BaseRoot => Some(PathName::BaseDir),
        PathName::Unknown => Some(PathName::Root),
        PathName::NewUnknown => Some(PathName::BaseRoot),
        PathName::Kotlin => Some(PathName::Root),
        PathName::NewKotlin => Some(PathName::BaseRoot),
        PathName::Meta => Some(PathName::Root),
        PathName::NewMeta => Some(PathName::BaseRoot),
        PathName::Dex => Some(PathName::BaseDir),
        PathName::BaseApk => Some(PathName::Root),
        PathName::ResourcesZip => Some(PathName::Root),
        PathName::App => None,
        PathName::ApkBuild => Some(PathName::App),
        PathName::ApkDist => Some(PathName::App),
        PathName::ApkUnSign => Some(PathName::ApkDist),
        PathName::ApkZipalign => Some(PathName::ApkDist),
        PathName::ApkSign => Some(PathName::ApkDist),
    }
}

/// How many derivations lie between `name` and the configuration.
pub open spec fn rank(name: PathName) -> nat {
    match name {
        PathName::Res => 0,
        PathName::Apks => 0,
        PathName::Aab => 0,
        PathName::BaseZip => 0,
        PathName::BaseDir => 0,
        PathName::Root => 0,
        PathName::Manifest => 1,
        PathName::Assets => 1,
        PathName::NewAssets => 1,
        PathName::Lib => 1,
        PathName::NewLib => 1,
        PathName::BaseRoot => 1,
        PathName::Unknown => 1,
        PathName::NewUnknown => 2,
        PathName::Kotlin => 1,
        PathName::NewKotlin => 2,
        PathName::Meta => 1,
        PathName::NewMeta => 2,
        PathName::Dex => 1,
        PathName::BaseApk => 1,
        PathName::ResourcesZip => 1,
        PathName::App => 0,
        PathName::ApkBuild => 1,
        PathName::ApkDist => 1,
        PathName::ApkUnSign => 2,
        PathName::ApkZipalign => 2,
        PathName::ApkSign => 2,
    }
}

/// The derivation of `name` from `base`: the value of the location it depends
/// on or, where it depends on none, the configured output directory (for
/// [`PathName::App`], the configured source project).
pub open spec fn derived(name: PathName, base: Seq<char>, config: Config, time: Seq<char>) -> Seq<
    char,
> {
    match name {
        PathName::Res => join(base, "res"@),
        PathName::Apks => join(base, "app.apks"@),
        PathName::Aab => join(base, stamped(time, ""@, config.apk.app_name@, ".aab"@)),
        PathName::BaseZip => join(base, "base.zip"@),
        PathName::BaseDir => join(base, "base"@),
        PathName::Root => base,
        PathName::Manifest => join(base, "manifest"@),
        PathName::Assets => join(base, "assets"@),
        PathName::NewAssets => join(base, "assets"@),
        PathName::Lib => join(base, "lib"@),
        PathName::NewLib => join(base, "lib"@),
        PathName::BaseRoot => join(base, "root"@),
        PathName::Unknown => join(base, "unknown"@),
        PathName::NewUnknown => join(join(base, "root"@), "unknown"@),
        PathName::Kotlin => join(base, "kotlin"@),
        PathName::NewKotlin => join(base, "kotlin"@),
        PathName::Meta => join(join(base, "original"@), "META-INF"@),
        PathName::NewMeta => join(join(base, "root"@), "META-INF"@),
        PathName::Dex => join(base, "dex"@),
        PathName::BaseApk => join(base, "base.apk"@),
        PathName::ResourcesZip => join(base, "resources.zip"@),
        PathName::App => base,
        PathName::ApkBuild => join(base, "build"@),
        PathName::ApkDist => join(base, "dist"@),
        PathName::ApkUnSign => join(base, stamped(time, "_"@, config.apk.app_name@, "-unsign.apk"@)),
        PathName::ApkZipalign => join(base, stamped(time, "_"@, config.apk.app_name@, "-zip.apk"@)),
        PathName::ApkSign => join(base, stamped(time, "_"@, config.apk.app_name@, "-sign.apk"@)),
    }
}

/// What the configuration gives to a location that depends on no other.
pub open spec fn configured(name: PathName, config: Config) -> Seq<char> {
    match name {
        PathName::App => config.build_apk.app_path@,
        _ => config.apk.apk_outdir@,
    }
}

/// The value of `name` for a configuration and a time stamp, with nothing
/// remembered.
pub open spec fn location(name: PathName, config: Config, time: Seq<char>) -> Seq<char>
    decreases rank(name),
{
    match depends_on(name) {
        None => derived(name, configured(name, config), config, time),
        Some(parent) => derived(name, location(parent, config, time), config, time),
    }
}

/// The answer of a resolver that remembers `cache` to the question for
/// `name`: what it remembers or, where it remembers nothing, the derivation
/// from the answer to the question for the location that `name` depends on.
pub open spec fn resolved(
    cache: Map<PathName, Seq<char>>,
    name: PathName,
    config: Config,
    time: Seq<char>,
) -> Seq<char>
    decreases rank(name),
{
    if cache.contains_key(name) {
        cache[name]
    } else {
        match depends_on(name) {
            None => derived(name, configured(name, config), config, time),
            Some(parent) => derived(name, resolved(cache, parent, config, time), config, time),
        }
    }
}

/// What a resolver that remembered `cache` remembers after the question for
/// `name`: the answer, and the answers to the questions that it had to ask
/// on the way.
pub open spec fn remembered(
    cache: Map<PathName, Seq<char>>,
    name: PathName,
    config: Config,
    time: Seq<char>,
) -> Map<PathName, Seq<char>>
    decreases rank(name),
{
    if cache.contains_key(name) {
        cache
    } else {
        match depends_on(name) {
            None => cache.insert(name, resolved(cache, name, config, time)),
            Some(parent) => remembered(cache, parent, config, time).insert(
                name,
                resolved(cache, name, config, time),
            ),
        }
    }
}

/// Whether the time stamp enters the name of the location.
pub open spec fn is_stamped(name: PathName) -> bool {
    name is Aab || name is ApkUnSign || name is ApkZipalign || name is ApkSign
}

/// The time stamp matters to the stamped locations only.
pub proof fn lemma_time_matters_to_stamped_only(
    cache: Map<PathName, Seq<char>>,
    name: PathName,
    config: Config,
    time: Seq<char>,
    other_time: Seq<char>,
)
    requires
        !is_stamped(name),
    ensures
        resolved(cache, name, config, time) == resolved(cache, name, config, other_time),
        remembered(cache, name, config, time) == remembered(cache, name, config, other_time),
        location(name, config, time) == location(name, config, other_time),
    decreases rank(name),
{
    match depends_on(name) {
        Some(parent) => {
            lemma_time_matters_to_stamped_only(cache, parent, config, time, other_time);
        },
        None => {},
    }
}

/// Every remembered answer is the one that the configuration and the time
/// stamp give.
pub open spec fn coherent(cache: Map<PathName, Seq<char>>, config: Config, time: Seq<char>) -> bool {
    forall|name: PathName| #[trigger]
        cache.contains_key(name) ==> cache[name] == location(name, config, time)
}

/// A location depends only on locations of lower rank.
pub proof fn lemma_dependency_lowers_rank(name: PathName)
    ensures
        depends_on(name) matches Some(parent) ==> rank(parent) < rank(name),
{
}

/// The location reached from `name` by following `steps` dependencies, if
/// the chain is that long.
pub open spec fn ancestor(name: PathName, steps: nat) -> Option<PathName>
    decreases steps,
{
    if steps == 0 {
        Some(name)
    } else {
        match ancestor(name, (steps - 1) as nat) {
            Some(below) => depends_on(below),
            None => None,
        }
    }
}

/// Following dependencies leads down in rank, one step at a time.
pub proof fn lemma_ancestor_rank(name: PathName, steps: nat)
    ensures
        ancestor(name, steps) matches Some(above) ==> rank(above) + steps <= rank(name),
    decreases steps,
{
    if steps > 0 {
        lemma_ancestor_rank(name, (steps - 1) as nat);
        match ancestor(name, (steps - 1) as nat) {
            Some(below) => {
                lemma_dependency_lowers_rank(below);
            },
            None => {},
        }
    }
}

/// The dependencies form no cycle: no location depends on itself, directly or
/// through others.
pub proof fn lemma_no_location_depends_on_itself(name: PathName, steps: nat)
    requires
        steps >= 1,
    ensures
        ancestor(name, steps) != Some(name),
{
    lemma_ancestor_rank(name, steps);
}

/// Asking twice gives the same answer. Once a resolver has answered the
/// question for a location, it gives that answer again, and remembers nothing
/// new, whatever configuration and time stamp come with the second question.
pub proof fn lemma_same_question_same_answer(
    cache: Map<PathName, Seq<char>>,
    name: PathName,
    config: Config,
    time: Seq<char>,
    later_config: Config,
    later_time: Seq<char>,
)
    ensures
        resolved(remembered(cache, name, config, time), name, later_config, later_time)
            == resolved(cache, name, config, time),
        remembered(remembered(cache, name, config, time), name, later_config, later_time)
            == remembered(cache, name, config, time),
{
}

/// Every answer that `wider` remembers is the answer that a resolver which
/// remembers `cache` gives, and `wider` remembers all that `cache` does.
pub open spec fn extends(
    cache: Map<PathName, Seq<char>>,
    wider: Map<PathName, Seq<char>>,
    config: Config,
    time: Seq<char>,
) -> bool {
    &&& forall|name: PathName| #[trigger] cache.contains_key(name) ==> wider.contains_key(name)
    &&& forall|name: PathName| #[trigger]
        wider.contains_key(name) ==> wider[name] == resolved(cache, name, config, time)
}

/// What a resolver remembers after a question extends what it remembered
/// before.
pub proof fn lemma_remembered_extends(
    cache: Map<PathName, Seq<char>>,
    asked: PathName,
    config: Config,
    time: Seq<char>,
)
    ensures
        extends(cache, remembered(cache, asked, config, time), config, time),
    decreases rank(asked),
{
    match depends_on(asked) {
        Some(parent) => {
            lemma_remembered_extends(cache, parent, config, time);
        },
        None => {},
    }
}

/// A resolver that remembers more, but nothing that it would not have
/// answered anyway, gives the same answers.
pub proof fn lemma_extension_answers_alike(
    cache: Map<PathName, Seq<char>>,
    wider: Map<PathName, Seq<char>>,
    name: PathName,
    config: Config,
    time: Seq<char>,
)
    requires
        extends(cache, wider, config, time),
    ensures
        resolved(wider, name, config, time) == resolved(cache, name, config, time),
    decreases rank(name),
{
    match depends_on(name) {
        Some(parent) => {
            lemma_extension_answers_alike(cache, wider, parent, config, time);
        },
        None => {},
    }
}

/// Remembering changes no answer: with one configuration and one time stamp,
/// the answer to a question does not depend on which questions were asked
/// before it.
pub proof fn lemma_remembering_changes_no_answer(
    cache: Map<PathName, Seq<char>>,
    asked: PathName,
    name: PathName,
    config: Config,
    time: Seq<char>,
)
    ensures
        resolved(remembered(cache, asked, config, time), name, config, time) == resolved(
            cache,
            name,
            config,
            time,
        ),
{
    lemma_remembered_extends(cache, asked, config, time);
    lemma_extension_answers_alike(
        cache,
        remembered(cache, asked, config, time),
        name,
        config,
        time,
    );
}

/// A resolver that has only ever been asked with one configuration and one
/// time stamp answers with the location that these two give, and stays such a
/// resolver.
pub proof fn lemma_answers_follow_configuration(
    cache: Map<PathName, Seq<char>>,
    name: PathName,
    config: Config,
    time: Seq<char>,
)
    requires
        coherent(cache, config, time),
    ensures
        resolved(cache, name, config, time) == location(name, config, time),
        coherent(remembered(cache, name, config, time), config, time),
    decreases rank(name),
{
    match depends_on(name) {
        Some(parent) => {
            lemma_answers_follow_configuration(cache, parent, config, time);
        },
        None => {},
    }
}

/// `names` adjoined to `base`, one after the other.
pub open spec fn join_all(base: Seq<char>, names: Seq<Seq<char>>) -> Seq<char>
    decreases names.len(),
{
    if names.len() == 0 {
        base
    } else {
        join(join_all(base, names.drop_last()), names.last())
    }
}

/// Adjoining two runs of names, one after the other, is adjoining the run
/// made of both.
pub proof fn lemma_join_all_concat(base: Seq<char>, first: Seq<Seq<char>>, second: Seq<Seq<char>>)
    ensures
        join_all(join_all(base, first), second) == join_all(base, first + second),
    decreases second.len(),
{
    if second.len() == 0 {
        assert(first + second =~= first);
    } else {
        lemma_join_all_concat(base, first, second.drop_last());
        assert((first + second).drop_last() =~= first + second.drop_last());
        assert((first + second).last() == second.last());
    }
}

/// The names that lead to a location from the one it depends on. A stamped
/// location has none here: its name is made of the time stamp.
pub open spec fn own_names(name: PathName) -> Seq<Seq<char>> {
    match name {
        PathName::Res => Seq::empty().push("res"@),
        PathName::Apks => Seq::empty().push("app.apks"@),
        PathName::Aab => Seq::empty(),
        PathName::BaseZip => Seq::empty().push("base.zip"@),
        PathName::BaseDir => Seq::empty().push("base"@),
        PathName::Root => Seq::empty(),
        PathName::Manifest => Seq::empty().push("manifest"@),
        PathName::Assets => Seq::empty().push("assets"@),
        PathName::NewAssets => Seq::empty().push("assets"@),
        PathName::Lib => Seq::empty().push("lib"@),
        PathName::NewLib => Seq::empty().push("lib"@),
        PathName::BaseRoot => Seq::empty().push("root"@),
        PathName::Unknown => Seq::empty().push("unknown"@),
        PathName::NewUnknown => Seq::empty().push("root"@).push("unknown"@),
        PathName::Kotlin => Seq::empty().push("kotlin"@),
        PathName::NewKotlin => Seq::empty().push("kotlin"@),
        PathName::Meta => Seq::empty().push("original"@).push("META-INF"@),
        PathName::NewMeta => Seq::empty().push("root"@).push("META-INF"@),
        PathName::Dex => Seq::empty().push("dex"@),
        PathName::BaseApk => Seq::empty().push("base.apk"@),
        PathName::ResourcesZip => Seq::empty().push("resources.zip"@),
        PathName::App => Seq::empty(),
        PathName::ApkBuild => Seq::empty().push("build"@),
        PathName::ApkDist => Seq::empty().push("dist"@),
        PathName::ApkUnSign => Seq::empty(),
        PathName::ApkZipalign => Seq::empty(),
        PathName::ApkSign => Seq::empty(),
    }
}

/// The names that lead to a location from the directory that the build is
/// configured with.
pub open spec fn steps(name: PathName) -> Seq<Seq<char>>
    decreases rank(name),
{
    match depends_on(name) {
        None => own_names(name),
        Some(parent) => steps(parent) + own_names(name),
    }
}

/// The location lies in the output directory, under a name that does not
/// change from build to build.
pub open spec fn below_output(name: PathName) -> bool {
    !is_stamped(name) && !(name is App) && !(name is ApkBuild) && !(name is ApkDist)
}

/// A location in the output directory is the output directory with the steps
/// to the location adjoined.
pub proof fn lemma_location_follows_steps(name: PathName, config: Config, time: Seq<char>)
    requires
        below_output(name),
    ensures
        location(name, config, time) == join_all(config.apk.apk_outdir@, steps(name)),
    decreases rank(name),
{
    let out = config.apk.apk_outdir@;
    let own = own_names(name);
    assert(join_all(out, Seq::empty()) == out);
    match depends_on(name) {
        Some(parent) => {
            lemma_location_follows_steps(parent, config, time);
            lemma_join_all_concat(out, steps(parent), own);
            let base = location(parent, config, time);
            lemma_derivation_adjoins(name, base, config, time);
        },
        None => {
            lemma_derivation_adjoins(name, out, config, time);
        },
    }
}

/// The derivation of an unstamped location adjoins the location's own names.
pub proof fn lemma_derivation_adjoins(
    name: PathName,
    base: Seq<char>,
    config: Config,
    time: Seq<char>,
)
    requires
        !is_stamped(name),
    ensures
        derived(name, base, config, time) == join_all(base, own_names(name)),
{
    let own = own_names(name);
    if own.len() == 1 {
        assert(own.drop_last() =~= Seq::empty());
        assert(join_all(base, own.drop_last()) == base);
    } else if own.len() == 2 {
        assert(own.drop_last().drop_last() =~= Seq::empty());
        assert(join_all(base, own.drop_last().drop_last()) == base);
        assert(join_all(base, own.drop_last()) == join(base, own[0]));
    }
}

/// The location that `name` depends on, if any.
pub fn parent_of(name: PathName) -> (r: Option<PathName>)
    ensures
        r == depends_on(name),
{
    match name {
        PathName::Res => None,
        PathName::Apks => None,
        PathName::Aab => None,
        PathName::BaseZip => None,
        PathName::BaseDir => None,
        PathName::Root => None,
        PathName::Manifest => Some(PathName::BaseDir),
        PathName::Assets => Some(PathName::Root),
        PathName::NewAssets => Some(PathName::BaseDir),
        PathName::Lib => Some(PathName::Root),
        PathName::NewLib => Some(PathName::BaseDir),
        PathName::BaseRoot => Some(PathName::BaseDir),
        PathName::Unknown => Some(PathName::Root),
        PathName::NewUnknown => Some(PathName::BaseRoot),
        PathName::Kotlin => Some(PathName::Root),
        PathName::NewKotlin => Some(PathName::BaseRoot),
        PathName::Meta => Some(PathName::Root),
        PathName::NewMeta => Some(PathName::BaseRoot),
        PathName::Dex => Some(PathName::BaseDir),
        PathName::BaseApk => Some(PathName::Root),
        PathName::ResourcesZip => Some(PathName::Root),
        PathName::App => None,
        PathName::ApkBuild => Some(PathName::App),
        PathName::ApkDist => Some(PathName::App),
        PathName::ApkUnSign => Some(PathName::ApkDist),
        PathName::ApkZipalign => Some(PathName::ApkDist),
        PathName::ApkSign => Some(PathName::ApkDist),
    }
}

/// Adds `name` at the end of `path`.
pub fn push_name(path: &mut Vec<String>, name: &str)
    ensures
        final(path).deep_view() == old(path).deep_view().push(name@),
{
    let ghost before = path.deep_view();
    path.push(String::from_str(name));
    assert(path.deep_view() =~= before.push(name@));
}

/// The names that lead to a location from the directory that the build is
/// configured with.
pub fn steps_of(name: PathName) -> (r: Vec<String>)
    ensures
        r.deep_view() == steps(name),
    decreases rank(name),
{
    let mut out: Vec<String> = match parent_of(name) {
        Some(parent) => steps_of(parent),
        None => Vec::new(),
    };
    let ghost before = out.deep_view();
    assert(depends_on(name) is None ==> before =~= Seq::<Seq<char>>::empty());
    match name {
        PathName::Res => {
            push_name(&mut out, "res");
        },
        PathName::Apks => {
            push_name(&mut out, "app.apks");
        },
        PathName::BaseZip => {
            push_name(&mut out, "base.zip");
        },
        PathName::BaseDir => {
            push_name(&mut out, "base");
        },
        PathName::Manifest => {
            push_name(&mut out, "manifest");
        },
        PathName::Assets => {
            push_name(&mut out, "assets");
        },
        PathName::NewAssets => {
            push_name(&mut out, "assets");
        },
        PathName::Lib => {
            push_name(&mut out, "lib");
        },
        PathName::NewLib => {
            push_name(&mut out, "lib");
        },
        PathName::BaseRoot => {
            push_name(&mut out, "root");
        },
        PathName::Unknown => {
            push_name(&mut out, "unknown");
        },
        PathName::NewUnknown => {
            push_name(&mut out, "root");
            push_name(&mut out, "unknown");
        },
        PathName::Kotlin => {
            push_name(&mut out, "kotlin");
        },
        PathName::NewKotlin => {
            push_name(&mut out, "kotlin");
        },
        PathName::Meta => {
            push_name(&mut out, "original");
            push_name(&mut out, "META-INF");
        },
        PathName::NewMeta => {
            push_name(&mut out, "root");
            push_name(&mut out, "META-INF");
        },
        PathName::Dex => {
            push_name(&mut out, "dex");
        },
        PathName::BaseApk => {
            push_name(&mut out, "base.apk");
        },
        PathName::ResourcesZip => {
            push_name(&mut out, "resources.zip");
        },
        PathName::ApkBuild => {
            push_name(&mut out, "build");
        },
        PathName::ApkDist => {
            push_name(&mut out, "dist");
        },
        _ => {},
    }
    assert(out.deep_view() =~= before + own_names(name));
    out
}

/// The position of `name` among the locations.
pub open spec fn slot(name: PathName) -> int {
    match name {
        PathName::Res => 0,
        PathName::Apks => 1,
        PathName::Aab => 2,
        PathName::BaseZip => 3,
        PathName::BaseDir => 4,
        PathName::Root => 5,
        PathName::Manifest => 6,
        PathName::Assets => 7,
        PathName::NewAssets => 8,
        PathName::Lib => 9,
        PathName::NewLib => 10,
        PathName::BaseRoot => 11,
        PathName::Unknown => 12,
        PathName::NewUnknown => 13,
        PathName::Kotlin => 14,
        PathName::NewKotlin => 15,
        PathName::Meta => 16,
        PathName::NewMeta => 17,
        PathName::Dex => 18,
        PathName::BaseApk => 19,
        PathName::ResourcesZip => 20,
        PathName::App => 21,
        PathName::ApkBuild => 22,
        PathName::ApkDist => 23,
        PathName::ApkUnSign => 24,
        PathName::ApkZipalign => 25,
        PathName::ApkSign => 26,
    }
}

/// Computes the position of `name` among the locations.
fn slot_of(name: PathName) -> (r: usize)
    ensures
        r == slot(name),
{
    match name {
        PathName::Res => 0,
        PathName::Apks => 1,
        PathName::Aab => 2,
        PathName::BaseZip => 3,
        PathName::BaseDir => 4,
        PathName::Root => 5,
        PathName::Manifest => 6,
        PathName::Assets => 7,
        PathName::NewAssets => 8,
        PathName::Lib => 9,
        PathName::NewLib => 10,
        PathName::BaseRoot => 11,
        PathName::Unknown => 12,
        PathName::NewUnknown => 13,
        PathName::Kotlin => 14,
        PathName::NewKotlin => 15,
        PathName::Meta => 16,
        PathName::NewMeta => 17,
        PathName::Dex => 18,
        PathName::BaseApk => 19,
        PathName::ResourcesZip => 20,
        PathName::App => 21,
        PathName::ApkBuild => 22,
        PathName::ApkDist => 23,
        PathName::ApkUnSign => 24,
        PathName::ApkZipalign => 25,
        PathName::ApkSign => 26,
    }
}

/// The memory of one build: the locations that have been asked for, each with
/// the answer that was given.
pub struct PathResolver {
    slots: Vec<Option<String>>,
}

impl View for PathResolver {
    type V = Map<PathName, Seq<char>>;

    closed spec fn view(&self) -> Map<PathName, Seq<char>> {
        Map::new(
            |name: PathName| slot(name) < self.slots.len() && self.slots[slot(name)] is Some,
            |name: PathName| self.slots[slot(name)]->0@,
        )
    }
}

impl PathResolver {
    /// A resolver that remembers nothing.
    pub fn new() -> (r: PathResolver)
        ensures
            r@ == Map::<PathName, Seq<char>>::empty(),
    {
        let r = PathResolver { slots: Vec::new() };
        assert(r@ =~= Map::<PathName, Seq<char>>::empty());
        r
    }

    /// What the resolver remembers of `name`.
    pub fn lookup(&self, name: PathName) -> (r: Option<String>)
        ensures
            match r {
                Some(path) => self@.contains_key(name) && path@ == self@[name],
                None => !self@.contains_key(name),
            },
    {
        let at = slot_of(name);
        if at < self.slots.len() {
            match &self.slots[at] {
                Some(path) => Some(path.clone()),
                None => None,
            }
        } else {
            None
        }
    }

    /// Remembers `path` as the answer for `name`.
    pub fn store(&mut self, name: PathName, path: &str)
        ensures
            final(self)@ == old(self)@.insert(name, path@),
    {
        let at = slot_of(name);
        while self.slots.len() <= at
            invariant
                self@ == old(self)@,
                at == slot(name),
            decreases at + 1 - self.slots.len(),
        {
            let ghost before = self@;
            let ghost held = self.slots@;
            self.slots.push(None);
            proof {
                assert forall|n: PathName| #[trigger] before.contains_key(n) implies slot(n)
                    < held.len() by {}
                assert(self@ =~= before);
            }
        }
        let ghost before = self@;
        self.slots.set(at, Some(String::from_str(path)));
        proof {
            assert forall|n: PathName| n != name implies slot(n) != slot(name) by {}
            assert(self@ =~= before.insert(name, path@));
        }
    }
}

/// The question for `name` was answered: `answer` holds the resolved path,
/// and the resolver went from remembering `before` to remembering `after`.
/// Where the location is not a stamped one, the time stamp is of no account.
pub open spec fn answers(
    before: Map<PathName, Seq<char>>,
    after: Map<PathName, Seq<char>>,
    name: PathName,
    config: Config,
    time: Seq<char>,
    answer: Result<String, PathError>,
) -> bool {
    &&& answer matches Ok(path)
    &&& path@ == resolved(before, name, config, time)
    &&& after == remembered(before, name, config, time)
}

/// The decoded resources: `res` in the output directory.
pub fn get_res_path(resolver: &mut PathResolver, config: &Config) -> (r: Result<
    String,
    PathError,
>)
    ensures
        answers(old(resolver)@, final(resolver)@, PathName::Res, *config, Seq::empty(), r),
{
    if let Some(path) = resolver.lookup(PathName::Res) {
        return Ok(path);
    }
    let path = path_join(config.apk.apk_outdir.as_str(), "res");
    resolver.store(PathName::Res, path.as_str());
    Ok(path)
}

/// The set of split packages: `app.apks` in the output directory.
pub fn get_apks_path(resolver: &mut PathResolver, config: &Config) -> (r: Result<
    String,
    PathError,
>)
    ensures
        answers(old(resolver)@, final(resolver)@, PathName::Apks, *config, Seq::empty(), r),
{
    if let Some(path) = resolver.lookup(PathName::Apks) {
        return Ok(path);
    }
    let path = path_join(config.apk.apk_outdir.as_str(), "app.apks");
    resolver.store(PathName::Apks, path.as_str());
    Ok(path)
}

/// The bundle: in the output directory, named by the time stamp, the
/// application's name and `.aab`, with nothing between them.
pub fn get_aab_path(resolver: &mut PathResolver, config: &Config, time: &str) -> (r: Result<
    String,
    PathError,
>)
    ensures
        answers(old(resolver)@, final(resolver)@, PathName::Aab, *config, time@, r),
{
    if let Some(path) = resolver.lookup(PathName::Aab) {
        return Ok(path);
    }
    let name = stamped_name(time, "", config.apk.app_name.as_str(), ".aab");
    let path = path_join(config.apk.apk_outdir.as_str(), name.as_str());
    resolver.store(PathName::Aab, path.as_str());
    Ok(path)
}

/// The module archive: `base.zip` in the output directory.
pub fn get_base_zip_path(resolver: &mut PathResolver, config: &Config) -> (r: Result<
    String,
    PathError,
>)
    ensures
        answers(old(resolver)@, final(resolver)@, PathName::BaseZip, *config, Seq::empty(), r),
{
    if let Some(path) = resolver.lookup(PathName::BaseZip) {
        return Ok(path);
    }
    let path = path_join(config.apk.apk_outdir.as_str(), "base.zip");
    resolver.store(PathName::BaseZip, path.as_str());
    Ok(path)
}

/// The module's working directory: `base` in the output directory.
pub fn get_base_dir_path(resolver: &mut PathResolver, config: &Config) -> (r: Result<
    String,
    PathError,
>)
    ensures
        answers(old(resolver)@, final(resolver)@, PathName::BaseDir, *config, Seq::empty(), r),
{
    if let Some(path) = resolver.lookup(PathName::BaseDir) {
        return Ok(path);
    }
    let path = path_join(config.apk.apk_outdir.as_str(), "base");
    resolver.store(PathName::BaseDir, path.as_str());
    Ok(path)
}

/// The output directory itself.
pub fn get_root_path(resolver: &mut PathResolver, config: &Config) -> (r: Result<
    String,
    PathError,
>)
    ensures
        answers(old(resolver)@, final(resolver)@, PathName::Root, *config, Seq::empty(), r),
{
    if let Some(path) = resolver.lookup(PathName::Root) {
        return Ok(path);
    }
    let path = String::from_str(config.apk.apk_outdir.as_str());
    resolver.store(PathName::Root, path.as_str());
    Ok(path)
}

/// Where the module keeps its manifest: `manifest` in the module directory.
pub fn get_manifest_path(resolver: &mut PathResolver, config: &Config) -> (r: Result<
    String,
    PathError,
>)
    ensures
        answers(old(resolver)@, final(resolver)@, PathName::Manifest, *config, Seq::empty(), r),
{
    if let Some(path) = resolver.lookup(PathName::Manifest) {
        return Ok(path);
    }
    let base = get_base_dir_path(resolver, config)?;
    let path = path_join(base.as_str(), "manifest");
    resolver.store(PathName::Manifest, path.as_str());
    Ok(path)
}

/// The decoded assets: `assets` in the output directory.
pub fn get_assets_path(resolver: &mut PathResolver, config: &Config) -> (r: Result<
    String,
    PathError,
>)
    ensures
        answers(old(resolver)@, final(resolver)@, PathName::Assets, *config, Seq::empty(), r),
{
    if let Some(path) = resolver.lookup(PathName::Assets) {
        return Ok(path);
    }
    let base = get_root_path(resolver, config)?;
    let path = path_join(base.as_str(), "assets");
    resolver.store(PathName::Assets, path.as_str());
    Ok(path)
}

/// The module's assets: `assets` in the module directory.
pub fn get_new_assets_path(resolver: &mut PathResolver, config: &Config) -> (r: Result<
    String,
    PathError,
>)
    ensures
        answers(old(resolver)@, final(resolver)@, PathName::NewAssets, *config, Seq::empty(), r),
{
    if let Some(path) = resolver.lookup(PathName::NewAssets) {
        return Ok(path);
    }
    let base = get_base_dir_path(resolver, config)?;
    let path = path_join(base.as_str(), "assets");
    resolver.store(PathName::NewAssets, path.as_str());
    Ok(path)
}

/// The decoded native libraries: `lib` in the output directory.
pub fn get_lib_path(resolver: &mut PathResolver, config: &Config) -> (r: Result<
    String,
    PathError,
>)
    ensures
        answers(old(resolver)@, final(resolver)@, PathName::Lib, *config, Seq::empty(), r),
{
    if let Some(path) = resolver.lookup(PathName::Lib) {
        return Ok(path);
    }
    let base = get_root_path(resolver, config)?;
    let path = path_join(base.as_str(), "lib");
    resolver.store(PathName::Lib, path.as_str());
    Ok(path)
}

/// The module's native libraries: `lib` in the module directory.
pub fn get_new_lib_path(resolver: &mut PathResolver, config: &Config) -> (r: Result<
    String,
    PathError,
>)
    ensures
        answers(old(resolver)@, final(resolver)@, PathName::NewLib, *config, Seq::empty(), r),
{
    if let Some(path) = resolver.lookup(PathName::NewLib) {
        return Ok(path);
    }
    let base = get_base_dir_path(resolver, config)?;
    let path = path_join(base.as_str(), "lib");
    resolver.store(PathName::NewLib, path.as_str());
    Ok(path)
}

/// The module's catch-all directory: `root` in the module directory.
pub fn get_base_root_path(resolver: &mut PathResolver, config: &Config) -> (r: Result<
    String,
    PathError,
>)
    ensures
        answers(old(resolver)@, final(resolver)@, PathName::BaseRoot, *config, Seq::empty(), r),
{
    if let Some(path) = resolver.lookup(PathName::BaseRoot) {
        return Ok(path);
    }
    let base = get_base_dir_path(resolver, config)?;
    let path = path_join(base.as_str(), "root");
    resolver.store(PathName::BaseRoot, path.as_str());
    Ok(path)
}

/// The decoded files of unknown kind: `unknown` in the output directory.
pub fn get_unknown_path(resolver: &mut PathResolver, config: &Config) -> (r: Result<
    String,
    PathError,
>)
    ensures
        answers(old(resolver)@, final(resolver)@, PathName::Unknown, *config, Seq::empty(), r),
{
    if let Some(path) = resolver.lookup(PathName::Unknown) {
        return Ok(path);
    }
    let base = get_root_path(resolver, config)?;
    let path = path_join(base.as_str(), "unknown");
    resolver.store(PathName::Unknown, path.as_str());
    Ok(path)
}

/// The module's files of unknown kind: `root/unknown` in the module's
/// catch-all directory.
pub fn get_new_unknown_path(resolver: &mut PathResolver, config: &Config) -> (r: Result<
    String,
    PathError,
>)
    ensures
        answers(old(resolver)@, final(resolver)@, PathName::NewUnknown, *config, Seq::empty(), r),
{
    if let Some(path) = resolver.lookup(PathName::NewUnknown) {
        return Ok(path);
    }
    let base = get_base_root_path(resolver, config)?;
    let inner = path_join(base.as_str(), "root");
    let path = path_join(inner.as_str(), "unknown");
    resolver.store(PathName::NewUnknown, path.as_str());
    Ok(path)
}

/// The decoded Kotlin metadata: `kotlin` in the output directory.
pub fn get_kotlin_path(resolver: &mut PathResolver, config: &Config) -> (r: Result<
    String,
    PathError,
>)
    ensures
        answers(old(resolver)@, final(resolver)@, PathName::Kotlin, *config, Seq::empty(), r),
{
    if let Some(path) = resolver.lookup(PathName::Kotlin) {
        return Ok(path);
    }
    let base = get_root_path(resolver, config)?;
    let path = path_join(base.as_str(), "kotlin");
    resolver.store(PathName::Kotlin, path.as_str());
    Ok(path)
}

/// The module's Kotlin metadata: `kotlin` in the module's catch-all
/// directory.
pub fn get_new_kotlin_path(resolver: &mut PathResolver, config: &Config) -> (r: Result<
    String,
    PathError,
>)
    ensures
        answers(old(resolver)@, final(resolver)@, PathName::NewKotlin, *config, Seq::empty(), r),
{
    if let Some(path) = resolver.lookup(PathName::NewKotlin) {
        return Ok(path);
    }
    let base = get_base_root_path(resolver, config)?;
    let path = path_join(base.as_str(), "kotlin");
    resolver.store(PathName::NewKotlin, path.as_str());
    Ok(path)
}

/// The decoded package's own `META-INF`: `original/META-INF` in the output
/// directory.
pub fn get_meta_path(resolver: &mut PathResolver, config: &Config) -> (r: Result<
    String,
    PathError,
>)
    ensures
        answers(old(resolver)@, final(resolver)@, PathName::Meta, *config, Seq::empty(), r),
{
    if let Some(path) = resolver.lookup(PathName::Meta) {
        return Ok(path);
    }
    let base = get_root_path(resolver, config)?;
    let inner = path_join(base.as_str(), "original");
    let path = path_join(inner.as_str(), "META-INF");
    resolver.store(PathName::Meta, path.as_str());
    Ok(path)
}

/// The module's `META-INF`: `root/META-INF` in the module's catch-all
/// directory.
pub fn get_new_meta_path(resolver: &mut PathResolver, config: &Config) -> (r: Result<
    String,
    PathError,
>)
    ensures
        answers(old(resolver)@, final(resolver)@, PathName::NewMeta, *config, Seq::empty(), r),
{
    if let Some(path) = resolver.lookup(PathName::NewMeta) {
        return Ok(path);
    }
    let base = get_base_root_path(resolver, config)?;
    let inner = path_join(base.as_str(), "root");
    let path = path_join(inner.as_str(), "META-INF");
    resolver.store(PathName::NewMeta, path.as_str());
    Ok(path)
}

/// The module's bytecode: `dex` in the module directory.
pub fn get_dex_path(resolver: &mut PathResolver, config: &Config) -> (r: Result<
    String,
    PathError,
>)
    ensures
        answers(old(resolver)@, final(resolver)@, PathName::Dex, *config, Seq::empty(), r),
{
    if let Some(path) = resolver.lookup(PathName::Dex) {
        return Ok(path);
    }
    let base = get_base_dir_path(resolver, config)?;
    let path = path_join(base.as_str(), "dex");
    resolver.store(PathName::Dex, path.as_str());
    Ok(path)
}

/// The linked package shell: `base.apk` in the output directory.
pub fn get_base_apk_path(resolver: &mut PathResolver, config: &Config) -> (r: Result<
    String,
    PathError,
>)
    ensures
        answers(old(resolver)@, final(resolver)@, PathName::BaseApk, *config, Seq::empty(), r),
{
    if let Some(path) = resolver.lookup(PathName::BaseApk) {
        return Ok(path);
    }
    let base = get_root_path(resolver, config)?;
    let path = path_join(base.as_str(), "base.apk");
    resolver.store(PathName::BaseApk, path.as_str());
    Ok(path)
}

/// The compiled resources: `resources.zip` in the output directory.
pub fn get_resources_zip_path(resolver: &mut PathResolver, config: &Config) -> (r: Result<
    String,
    PathError,
>)
    ensures
        answers(old(resolver)@, final(resolver)@, PathName::ResourcesZip, *config, Seq::empty(), r),
{
    if let Some(path) = resolver.lookup(PathName::ResourcesZip) {
        return Ok(path);
    }
    let base = get_root_path(resolver, config)?;
    let path = path_join(base.as_str(), "resources.zip");
    resolver.store(PathName::ResourcesZip, path.as_str());
    Ok(path)
}

/// The source project.
pub fn get_app_path(resolver: &mut PathResolver, config: &Config) -> (r: Result<
    String,
    PathError,
>)
    ensures
        answers(old(resolver)@, final(resolver)@, PathName::App, *config, Seq::empty(), r),
{
    if let Some(path) = resolver.lookup(PathName::App) {
        return Ok(path);
    }
    let path = String::from_str(config.build_apk.app_path.as_str());
    resolver.store(PathName::App, path.as_str());
    Ok(path)
}

/// The package builder's cache: `build` in the source project.
pub fn get_apk_build_path(resolver: &mut PathResolver, config: &Config) -> (r: Result<
    String,
    PathError,
>)
    ensures
        answers(old(resolver)@, final(resolver)@, PathName::ApkBuild, *config, Seq::empty(), r),
{
    if let Some(path) = resolver.lookup(PathName::ApkBuild) {
        return Ok(path);
    }
    let base = get_app_path(resolver, config)?;
    let path = path_join(base.as_str(), "build");
    resolver.store(PathName::ApkBuild, path.as_str());
    Ok(path)
}

/// The package builder's output: `dist` in the source project.
pub fn get_apk_dist_path(resolver: &mut PathResolver, config: &Config) -> (r: Result<
    String,
    PathError,
>)
    ensures
        answers(old(resolver)@, final(resolver)@, PathName::ApkDist, *config, Seq::empty(), r),
{
    if let Some(path) = resolver.lookup(PathName::ApkDist) {
        return Ok(path);
    }
    let base = get_app_path(resolver, config)?;
    let path = path_join(base.as_str(), "dist");
    resolver.store(PathName::ApkDist, path.as_str());
    Ok(path)
}

/// The unsigned package: in the builder's output, named by the time stamp,
/// `_`, the application's name and `-unsign.apk`.
pub fn get_apk_un_sign_path(resolver: &mut PathResolver, config: &Config, time: &str) -> (r: Result<
    String,
    PathError,
>)
    ensures
        answers(old(resolver)@, final(resolver)@, PathName::ApkUnSign, *config, time@, r),
{
    if let Some(path) = resolver.lookup(PathName::ApkUnSign) {
        return Ok(path);
    }
    let base = get_apk_dist_path(resolver, config)?;
    proof {
        lemma_time_matters_to_stamped_only(
            old(resolver)@,
            PathName::ApkDist,
            *config,
            Seq::empty(),
            time@,
        );
    }
    let name = stamped_name(time, "_", config.apk.app_name.as_str(), "-unsign.apk");
    let path = path_join(base.as_str(), name.as_str());
    resolver.store(PathName::ApkUnSign, path.as_str());
    Ok(path)
}

/// The aligned package: in the builder's output, named by the time stamp,
/// `_`, the application's name and `-zip.apk`.
pub fn get_apk_zipalign_path(resolver: &mut PathResolver, config: &Config, time: &str) -> (r: Result<
    String,
    PathError,
>)
    ensures
        answers(old(resolver)@, final(resolver)@, PathName::ApkZipalign, *config, time@, r),
{
    if let Some(path) = resolver.lookup(PathName::ApkZipalign) {
        return Ok(path);
    }
    let base = get_apk_dist_path(resolver, config)?;
    proof {
        lemma_time_matters_to_stamped_only(
            old(resolver)@,
            PathName::ApkDist,
            *config,
            Seq::empty(),
            time@,
        );
    }
    let name = stamped_name(time, "_", config.apk.app_name.as_str(), "-zip.apk");
    let path = path_join(base.as_str(), name.as_str());
    resolver.store(PathName::ApkZipalign, path.as_str());
    Ok(path)
}

/// The signed package: in the builder's output, named by the time stamp,
/// `_`, the application's name and `-sign.apk`.
pub fn get_apk_sign_path(resolver: &mut PathResolver, config: &Config, time: &str) -> (r: Result<
    String,
    PathError,
>)
    ensures
        answers(old(resolver)@, final(resolver)@, PathName::ApkSign, *config, time@, r),
{
    if let Some(path) = resolver.lookup(PathName::ApkSign) {
        return Ok(path);
    }
    let base = get_apk_dist_path(resolver, config)?;
    proof {
        lemma_time_matters_to_stamped_only(
            old(resolver)@,
            PathName::ApkDist,
            *config,
            Seq::empty(),
            time@,
        );
    }
    let name = stamped_name(time, "_", config.apk.app_name.as_str(), "-sign.apk");
    let path = path_join(base.as_str(), name.as_str());
    resolver.store(PathName::ApkSign, path.as_str());
    Ok(path)
}

} // verus!
