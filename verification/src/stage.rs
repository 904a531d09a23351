//! The stages of a build and the work that each of them asks for: the command
//! line of an external tool, or a transformation of files that the caller
//! carries out with this library.

use crate::archive::Compression;
use crate::config::Config;
use crate::file_path::{
    get_aab_path, get_apk_build_path, get_apk_dist_path, get_apk_sign_path, get_apk_un_sign_path,
    get_apk_zipalign_path, get_apks_path, get_base_apk_path, get_base_dir_path, get_base_zip_path,
    get_manifest_path, get_res_path, get_resources_zip_path, get_root_path, join,
    lemma_remembering_changes_no_answer, lemma_time_matters_to_stamped_only, path_join, push_name,
    remembered, resolved, PathError, PathName, PathResolver,
};
use vstd::prelude::*;

verus! {

/// A stage of a build.
#[derive(Debug, Clone, Copy, PartialEq, Eq, Structural)]
pub enum Stage {
    ApktoolRmCache,
    ApktoolBuild,
    Zipalign,
    Apksigner,
    InstallApk,
    LaunchApp,
    DecodeApk,
    CompileResources,
    LinkResources,
    UnzipApk,
    CopyResources,
    ZipResources,
    CompileAppBundle,
    SignAppBundle,
    BuildApks,
    InstallApks,
}

/// The name under which a stage is reported.
pub open spec fn stage_name(stage: Stage) -> Seq<char> {
    match stage {
        Stage::ApktoolRmCache => "apktool rm cache"@,
        Stage::ApktoolBuild => "apktool build"@,
        Stage::Zipalign => "zipalign"@,
        Stage::Apksigner => "apksigner"@,
        Stage::InstallApk => "install apk"@,
        Stage::LaunchApp => "launch app"@,
        Stage::DecodeApk => "decode apk"@,
        Stage::CompileResources => "compile resources"@,
        Stage::LinkResources => "link resources"@,
        Stage::UnzipApk => "unzip apk"@,
        Stage::CopyResources => "copy resources"@,
        Stage::ZipResources => "zip resources"@,
        Stage::CompileAppBundle => "compile app bundle"@,
        Stage::SignAppBundle => "sign app bundle"@,
        Stage::BuildApks => "build apks"@,
        Stage::InstallApks => "install apks"@,
    }
}

impl Stage {
    /// The name under which the stage is reported.
    pub fn name(self) -> (r: &'static str)
        ensures
            r@ == stage_name(self),
    {
        match self {
            Stage::ApktoolRmCache => "apktool rm cache",
            Stage::ApktoolBuild => "apktool build",
            Stage::Zipalign => "zipalign",
            Stage::Apksigner => "apksigner",
            Stage::InstallApk => "install apk",
            Stage::LaunchApp => "launch app",
            Stage::DecodeApk => "decode apk",
            Stage::CompileResources => "compile resources",
            Stage::LinkResources => "link resources",
            Stage::UnzipApk => "unzip apk",
            Stage::CopyResources => "copy resources",
            Stage::ZipResources => "zip resources",
            Stage::CompileAppBundle => "compile app bundle",
            Stage::SignAppBundle => "sign app bundle",
            Stage::BuildApks => "build apks",
            Stage::InstallApks => "install apks",
        }
    }

    /// What is reported when the stage fails: its name, then ` failed`.
    pub fn failure_message(self) -> (r: String)
        ensures
            r@ == stage_name(self) + " failed"@,
    {
        let mut out = String::from_str(self.name());
        out.append(" failed");
        out
    }
}

/// The command line of an external tool.
#[derive(Debug, Clone, PartialEq, Eq)]
pub struct Invocation {
    pub program: String,
    pub args: Vec<String>,
}

/// What a stage asks its caller to do.
#[derive(Debug, Clone, PartialEq, Eq)]
pub enum Work {
    /// Remove the file `stale` if it is there, then run `call` to its end. The
    /// stage has succeeded if the tool's exit status says so.
    Tool { stale: Option<String>, call: Invocation },
    /// Remove each of `dirs`, with what it holds, if it is there.
    ClearCache { dirs: Vec<String> },
    /// Unpack the archive at `archive` into the directory `dest`.
    Unzip { archive: String, dest: String },
    /// Lay out the module below the output directory `root`. The manifest
    /// goes from `manifest_from` to `manifest_to`.
    CopyResources { root: String, manifest_from: String, manifest_to: String },
    /// Pack the directory `dir` into a fresh archive at `archive`, with the
    /// given compression.
    ZipDir { dir: String, archive: String, method: Compression },
}

/// The mathematical value of a [`Work`].
pub enum WorkView {
    Tool { stale: Option<Seq<char>>, program: Seq<char>, args: Seq<Seq<char>> },
    ClearCache { dirs: Seq<Seq<char>> },
    Unzip { archive: Seq<char>, dest: Seq<char> },
    CopyResources { root: Seq<char>, manifest_from: Seq<char>, manifest_to: Seq<char> },
    ZipDir { dir: Seq<char>, archive: Seq<char>, method: Compression },
}

impl View for Work {
    type V = WorkView;

    open spec fn view(&self) -> WorkView {
        match self {
            Work::Tool { stale, call } => WorkView::Tool {
                stale: match stale {
                    Some(path) => Some(path@),
                    None => None,
                },
                program: call.program@,
                args: call.args.deep_view(),
            },
            Work::ClearCache { dirs } => WorkView::ClearCache { dirs: dirs.deep_view() },
            Work::Unzip { archive, dest } => WorkView::Unzip { archive: archive@, dest: dest@ },
            Work::CopyResources { root, manifest_from, manifest_to } => WorkView::CopyResources {
                root: root@,
                manifest_from: manifest_from@,
                manifest_to: manifest_to@,
            },
            Work::ZipDir { dir, archive, method } => WorkView::ZipDir {
                dir: dir@,
                archive: archive@,
                method: *method,
            },
        }
    }
}

/// A run of the tool `program` with `args`, after `stale` was removed.
pub open spec fn tool(stale: Option<Seq<char>>, program: Seq<char>, args: Seq<Seq<char>>) -> WorkView {
    WorkView::Tool { stale, program, args }
}

/// The work of a stage, where `at` gives the path of each location.
pub open spec fn work_with(stage: Stage, at: spec_fn(PathName) -> Seq<char>, config: Config) -> WorkView {
    match stage {
        Stage::ApktoolRmCache => WorkView::ClearCache {
            dirs: seq![at(PathName::ApkBuild), at(PathName::ApkDist)],
        },
        Stage::ApktoolBuild => tool(
            None,
            "java"@,
            seq![
                "-jar"@,
                config.jar.apktool_path@,
                "b"@,
                config.build_apk.app_path@,
                "-o"@,
                at(PathName::ApkUnSign),
            ],
        ),
        Stage::Zipalign => tool(
            None,
            "zipalign"@,
            seq!["-v"@, "-p"@, "4"@, at(PathName::ApkUnSign), at(PathName::ApkZipalign)],
        ),
        Stage::Apksigner => tool(
            None,
            "apksigner"@,
            seq![
                "sign"@,
                "--ks"@,
                config.sign.keystore@,
                "--ks-pass"@,
                "pass:"@ + config.sign.keystore_pass@,
                "--out"@,
                at(PathName::ApkSign),
                at(PathName::ApkZipalign),
            ],
        ),
        Stage::InstallApk => tool(None, "adb"@, seq!["install"@, "-r"@, at(PathName::ApkSign)]),
        Stage::LaunchApp => tool(
            None,
            "adb"@,
            seq!["shell"@, "am"@, "start"@, "-n"@, config.config.main_activity@],
        ),
        Stage::DecodeApk => tool(
            None,
            "java"@,
            seq![
                "-jar"@,
                config.jar.apktool_path@,
                "d"@,
                config.apk.apk_path@,
                "-s"@,
                "-o"@,
                config.apk.apk_outdir@,
            ],
        ),
        Stage::CompileResources => tool(
            Some(at(PathName::ResourcesZip)),
            "aapt2"@,
            seq!["compile"@, "--dir"@, at(PathName::Res), "-o"@, at(PathName::ResourcesZip)],
        ),
        Stage::LinkResources => tool(
            Some(at(PathName::BaseApk)),
            "aapt2"@,
            seq![
                "link"@,
                "--proto-format"@,
                "-o"@,
                at(PathName::BaseApk),
                "-I"@,
                config.jar.android_jar_path@,
                "--min-sdk-version"@,
                config.apk.min_sdk_version@,
                "--target-sdk-version"@,
                config.apk.target_sdk_version@,
                "--version-code"@,
                config.apk.version_code@,
                "--version-name"@,
                config.apk.version_name@,
                "--manifest"@,
                join(config.apk.apk_outdir@, "AndroidManifest.xml"@),
                "-R"@,
                at(PathName::ResourcesZip),
                "--auto-add-overlay"@,
            ],
        ),
        Stage::UnzipApk => WorkView::Unzip {
            archive: at(PathName::BaseApk),
            dest: at(PathName::BaseDir),
        },
        Stage::CopyResources => WorkView::CopyResources {
            root: at(PathName::Root),
            manifest_from: join(at(PathName::BaseDir), "AndroidManifest.xml"@),
            manifest_to: join(at(PathName::Manifest), "AndroidManifest.xml"@),
        },
        Stage::ZipResources => WorkView::ZipDir {
            dir: at(PathName::BaseDir),
            archive: at(PathName::BaseZip),
            method: Compression::Deflated,
        },
        Stage::CompileAppBundle => tool(
            Some(at(PathName::Aab)),
            "java"@,
            if config.config.bundletool_config_path@.len() == 0 {
                seq![
                    "-jar"@,
                    config.jar.bundletool_path@,
                    "build-bundle"@,
                    "--modules"@,
                    at(PathName::BaseZip),
                    "--output"@,
                    at(PathName::Aab),
                ]
            } else {
                seq![
                    "-jar"@,
                    config.jar.bundletool_path@,
                    "build-bundle"@,
                    "--modules"@,
                    at(PathName::BaseZip),
                    "--output"@,
                    at(PathName::Aab),
                    "--config="@ + config.config.bundletool_config_path@,
                ]
            },
        ),
        Stage::SignAppBundle => tool(
            None,
            "jarsigner"@,
            seq![
                "-digestalg"@,
                "SHA1"@,
                "-sigalg"@,
                "SHA1withRSA"@,
                "-keystore"@,
                config.sign.keystore@,
                "-storepass"@,
                config.sign.keystore_pass@,
                "-keypass"@,
                config.sign.keystore_key_pass@,
                at(PathName::Aab),
                config.sign.keystore_key_alias@,
            ],
        ),
        Stage::BuildApks => tool(
            Some(at(PathName::Apks)),
            "java"@,
            seq![
                "-jar"@,
                config.jar.bundletool_path@,
                "build-apks"@,
                "--bundle"@,
                at(PathName::Aab),
                "--output"@,
                at(PathName::Apks),
                "--ks"@,
                config.sign.keystore@,
                "--ks-pass"@,
                "pass:"@ + config.sign.keystore_pass@,
                "--ks-key-alias"@,
                config.sign.keystore_key_alias@,
                "--key-pass"@,
                "pass:"@ + config.sign.keystore_key_pass@,
            ],
        ),
        Stage::InstallApks => tool(
            None,
            "java"@,
            seq![
                "-jar"@,
                config.jar.bundletool_path@,
                "install-apks"@,
                "--apks"@,
                at(PathName::Apks),
            ],
        ),
    }
}

/// What a resolver that remembered `cache` remembers after it has planned a
/// stage: the answers to the questions that the stage asks, in the order in
/// which it asks them.
pub open spec fn after_asking(
    cache: Map<PathName, Seq<char>>,
    stage: Stage,
    config: Config,
    time: Seq<char>,
) -> Map<PathName, Seq<char>> {
    match stage {
        Stage::ApktoolRmCache => remembered(
            remembered(cache, PathName::ApkBuild, config, time),
            PathName::ApkDist,
            config,
            time,
        ),
        Stage::ApktoolBuild => remembered(cache, PathName::ApkUnSign, config, time),
        Stage::Zipalign => remembered(
            remembered(cache, PathName::ApkUnSign, config, time),
            PathName::ApkZipalign,
            config,
            time,
        ),
        Stage::Apksigner => remembered(
            remembered(cache, PathName::ApkZipalign, config, time),
            PathName::ApkSign,
            config,
            time,
        ),
        Stage::InstallApk => remembered(cache, PathName::ApkSign, config, time),
        Stage::LaunchApp => cache,
        Stage::DecodeApk => cache,
        Stage::CompileResources => remembered(
            remembered(cache, PathName::Res, config, time),
            PathName::ResourcesZip,
            config,
            time,
        ),
        Stage::LinkResources => remembered(
            remembered(cache, PathName::ResourcesZip, config, time),
            PathName::BaseApk,
            config,
            time,
        ),
        Stage::UnzipApk => remembered(
            remembered(cache, PathName::BaseApk, config, time),
            PathName::BaseDir,
            config,
            time,
        ),
        Stage::CopyResources => remembered(
            remembered(
                remembered(cache, PathName::Root, config, time),
                PathName::BaseDir,
                config,
                time,
            ),
            PathName::Manifest,
            config,
            time,
        ),
        Stage::ZipResources => remembered(
            remembered(cache, PathName::BaseZip, config, time),
            PathName::BaseDir,
            config,
            time,
        ),
        Stage::CompileAppBundle => remembered(
            remembered(cache, PathName::Aab, config, time),
            PathName::BaseZip,
            config,
            time,
        ),
        Stage::SignAppBundle => remembered(cache, PathName::Aab, config, time),
        Stage::BuildApks => remembered(
            remembered(cache, PathName::Apks, config, time),
            PathName::Aab,
            config,
            time,
        ),
        Stage::InstallApks => remembered(cache, PathName::Apks, config, time),
    }
}

/// The stage was planned: `plan` holds its work, with every path as the
/// resolver that remembered `before` answers for it, and the resolver has
/// gone on to remember `after`.
pub open spec fn planned(
    before: Map<PathName, Seq<char>>,
    after: Map<PathName, Seq<char>>,
    stage: Stage,
    config: Config,
    time: Seq<char>,
    plan: Result<Work, PathError>,
) -> bool {
    &&& plan matches Ok(work)
    &&& work@ == work_with(stage, |name: PathName| resolved(before, name, config, time), config)
    &&& after == after_asking(before, stage, config, time)
}

/// Two pieces of work are the same, part by part.
pub open spec fn same_work(a: WorkView, b: WorkView) -> bool {
    match (a, b) {
        (
            WorkView::Tool { stale, program, args },
            WorkView::Tool { stale: other_stale, program: other_program, args: other_args },
        ) => stale == other_stale && program =~= other_program && args =~= other_args,
        (WorkView::ClearCache { dirs }, WorkView::ClearCache { dirs: other_dirs }) => dirs
            =~= other_dirs,
        (
            WorkView::Unzip { archive, dest },
            WorkView::Unzip { archive: other_archive, dest: other_dest },
        ) => archive =~= other_archive && dest =~= other_dest,
        (
            WorkView::CopyResources { root, manifest_from, manifest_to },
            WorkView::CopyResources {
                root: other_root,
                manifest_from: other_from,
                manifest_to: other_to,
            },
        ) => root =~= other_root && manifest_from =~= other_from && manifest_to =~= other_to,
        (
            WorkView::ZipDir { dir, archive, method },
            WorkView::ZipDir { dir: other_dir, archive: other_archive, method: other_method },
        ) => dir =~= other_dir && archive =~= other_archive && method == other_method,
        _ => false,
    }
}

/// Work that is the same part by part is the same.
pub proof fn lemma_same_work(a: WorkView, b: WorkView)
    requires
        same_work(a, b),
    ensures
        a == b,
{
}

/// The run of a tool that leaves nothing stale behind.
fn run(program: &str, args: Vec<String>) -> (r: Work)
    ensures
        r@ == tool(None, program@, args.deep_view()),
{
    Work::Tool { stale: None, call: Invocation { program: String::from_str(program), args } }
}

/// The run of a tool that writes `output` afresh.
fn run_afresh(output: &str, program: &str, args: Vec<String>) -> (r: Work)
    ensures
        r@ == tool(Some(output@), program@, args.deep_view()),
{
    Work::Tool {
        stale: Some(String::from_str(output)),
        call: Invocation { program: String::from_str(program), args },
    }
}

/// `prefix` followed by `value`.
fn prefixed(prefix: &str, value: &str) -> (r: String)
    ensures
        r@ == prefix@ + value@,
{
    let mut out = String::from_str(prefix);
    out.append(value);
    out
}

/// Clearing the package builder's cache and its earlier output.
pub fn apktool_rm_cache(resolver: &mut PathResolver, config: &Config) -> (r: Result<Work, PathError>)
    ensures
        forall|time: Seq<char>|
            planned(
                old(resolver)@,
                final(resolver)@,
                Stage::ApktoolRmCache,
                *config,
                time,
                r,
            ),
{
    let ghost c0 = resolver@;
    let build = get_apk_build_path(resolver, config)?;
    let ghost c1 = resolver@;
    let dist = get_apk_dist_path(resolver, config)?;
    let mut dirs: Vec<String> = Vec::new();
    push_name(&mut dirs, build.as_str());
    push_name(&mut dirs, dist.as_str());
    let work = Work::ClearCache { dirs };
    proof {
        assert forall|time: Seq<char>|
            planned(c0, resolver@, Stage::ApktoolRmCache, *config, time, Ok(work)) by {
            let none = Seq::<char>::empty();
            lemma_time_matters_to_stamped_only(c0, PathName::ApkBuild, *config, none, time);
            lemma_time_matters_to_stamped_only(c1, PathName::ApkDist, *config, none, time);
            lemma_time_matters_to_stamped_only(c0, PathName::ApkDist, *config, none, time);
            lemma_remembering_changes_no_answer(
                c0,
                PathName::ApkBuild,
                PathName::ApkDist,
                *config,
                none,
            );
            lemma_same_work(
                work@,
                work_with(
                    Stage::ApktoolRmCache,
                    |name: PathName| resolved(c0, name, *config, time),
                    *config,
                ),
            );
        }
    }
    Ok(work)
}

/// Building the unsigned package from the source project.
pub fn apktool_build(resolver: &mut PathResolver, config: &Config, time: &str) -> (r: Result<
    Work,
    PathError,
>)
    ensures
        planned(old(resolver)@, final(resolver)@, Stage::ApktoolBuild, *config, time@, r),
{
    let ghost c0 = resolver@;
    let unsigned = get_apk_un_sign_path(resolver, config, time)?;
    let mut args: Vec<String> = Vec::new();
    push_name(&mut args, "-jar");
    push_name(&mut args, config.jar.apktool_path.as_str());
    push_name(&mut args, "b");
    push_name(&mut args, config.build_apk.app_path.as_str());
    push_name(&mut args, "-o");
    push_name(&mut args, unsigned.as_str());
    let work = run("java", args);
    proof {
        lemma_same_work(
            work@,
            work_with(
                Stage::ApktoolBuild,
                |name: PathName| resolved(c0, name, *config, time@),
                *config,
            ),
        );
    }
    Ok(work)
}

/// Aligning the unsigned package.
pub fn zipalign(resolver: &mut PathResolver, config: &Config, time: &str) -> (r: Result<
    Work,
    PathError,
>)
    ensures
        planned(old(resolver)@, final(resolver)@, Stage::Zipalign, *config, time@, r),
{
    let ghost c0 = resolver@;
    let unsigned = get_apk_un_sign_path(resolver, config, time)?;
    let aligned = get_apk_zipalign_path(resolver, config, time)?;
    proof {
        lemma_remembering_changes_no_answer(
            c0,
            PathName::ApkUnSign,
            PathName::ApkZipalign,
            *config,
            time@,
        );
    }
    let mut args: Vec<String> = Vec::new();
    push_name(&mut args, "-v");
    push_name(&mut args, "-p");
    push_name(&mut args, "4");
    push_name(&mut args, unsigned.as_str());
    push_name(&mut args, aligned.as_str());
    let work = run("zipalign", args);
    proof {
        lemma_same_work(
            work@,
            work_with(
                Stage::Zipalign,
                |name: PathName| resolved(c0, name, *config, time@),
                *config,
            ),
        );
    }
    Ok(work)
}

/// Signing the aligned package.
pub fn apksigner(resolver: &mut PathResolver, config: &Config, time: &str) -> (r: Result<
    Work,
    PathError,
>)
    ensures
        planned(old(resolver)@, final(resolver)@, Stage::Apksigner, *config, time@, r),
{
    let ghost c0 = resolver@;
    let aligned = get_apk_zipalign_path(resolver, config, time)?;
    let signed = get_apk_sign_path(resolver, config, time)?;
    proof {
        lemma_remembering_changes_no_answer(
            c0,
            PathName::ApkZipalign,
            PathName::ApkSign,
            *config,
            time@,
        );
    }
    let pass = prefixed("pass:", config.sign.keystore_pass.as_str());
    let mut args: Vec<String> = Vec::new();
    push_name(&mut args, "sign");
    push_name(&mut args, "--ks");
    push_name(&mut args, config.sign.keystore.as_str());
    push_name(&mut args, "--ks-pass");
    push_name(&mut args, pass.as_str());
    push_name(&mut args, "--out");
    push_name(&mut args, signed.as_str());
    push_name(&mut args, aligned.as_str());
    let work = run("apksigner", args);
    proof {
        lemma_same_work(
            work@,
            work_with(
                Stage::Apksigner,
                |name: PathName| resolved(c0, name, *config, time@),
                *config,
            ),
        );
    }
    Ok(work)
}

/// Installing the signed package on the device.
pub fn install_apk(resolver: &mut PathResolver, config: &Config, time: &str) -> (r: Result<
    Work,
    PathError,
>)
    ensures
        planned(old(resolver)@, final(resolver)@, Stage::InstallApk, *config, time@, r),
{
    let ghost c0 = resolver@;
    let signed = get_apk_sign_path(resolver, config, time)?;
    let mut args: Vec<String> = Vec::new();
    push_name(&mut args, "install");
    push_name(&mut args, "-r");
    push_name(&mut args, signed.as_str());
    let work = run("adb", args);
    proof {
        lemma_same_work(
            work@,
            work_with(
                Stage::InstallApk,
                |name: PathName| resolved(c0, name, *config, time@),
                *config,
            ),
        );
    }
    Ok(work)
}

/// Launching the main activity on the device.
pub fn launch_app(config: &Config) -> (r: Work)
    ensures
        forall|at: spec_fn(PathName) -> Seq<char>| r@ == #[trigger] work_with(Stage::LaunchApp, at, *config),
{
    let mut args: Vec<String> = Vec::new();
    push_name(&mut args, "shell");
    push_name(&mut args, "am");
    push_name(&mut args, "start");
    push_name(&mut args, "-n");
    push_name(&mut args, config.config.main_activity.as_str());
    let work = run("adb", args);
    proof {
        assert forall|at: spec_fn(PathName) -> Seq<char>|
            work@ == #[trigger] work_with(Stage::LaunchApp, at, *config) by {
            lemma_same_work(work@, work_with(Stage::LaunchApp, at, *config));
        }
    }
    work
}

/// Decoding the source package into the output directory.
pub fn decode_apk(config: &Config) -> (r: Work)
    ensures
        forall|at: spec_fn(PathName) -> Seq<char>| r@ == #[trigger] work_with(Stage::DecodeApk, at, *config),
{
    let mut args: Vec<String> = Vec::new();
    push_name(&mut args, "-jar");
    push_name(&mut args, config.jar.apktool_path.as_str());
    push_name(&mut args, "d");
    push_name(&mut args, config.apk.apk_path.as_str());
    push_name(&mut args, "-s");
    push_name(&mut args, "-o");
    push_name(&mut args, config.apk.apk_outdir.as_str());
    let work = run("java", args);
    proof {
        assert forall|at: spec_fn(PathName) -> Seq<char>|
            work@ == #[trigger] work_with(Stage::DecodeApk, at, *config) by {
            lemma_same_work(work@, work_with(Stage::DecodeApk, at, *config));
        }
    }
    work
}

/// Compiling the decoded resources into the resource archive.
pub fn compile_resources(resolver: &mut PathResolver, config: &Config) -> (r: Result<
    Work,
    PathError,
>)
    ensures
        forall|time: Seq<char>|
            planned(
                old(resolver)@,
                final(resolver)@,
                Stage::CompileResources,
                *config,
                time,
                r,
            ),
{
    let ghost c0 = resolver@;
    let res = get_res_path(resolver, config)?;
    let ghost c1 = resolver@;
    let res_zip = get_resources_zip_path(resolver, config)?;
    let mut args: Vec<String> = Vec::new();
    push_name(&mut args, "compile");
    push_name(&mut args, "--dir");
    push_name(&mut args, res.as_str());
    push_name(&mut args, "-o");
    push_name(&mut args, res_zip.as_str());
    let work = run_afresh(res_zip.as_str(), "aapt2", args);
    proof {
        assert forall|time: Seq<char>|
            planned(c0, resolver@, Stage::CompileResources, *config, time, Ok(work)) by {
            let none = Seq::<char>::empty();
            lemma_time_matters_to_stamped_only(c0, PathName::Res, *config, none, time);
            lemma_time_matters_to_stamped_only(c1, PathName::ResourcesZip, *config, none, time);
            lemma_time_matters_to_stamped_only(c0, PathName::ResourcesZip, *config, none, time);
            lemma_remembering_changes_no_answer(
                c0,
                PathName::Res,
                PathName::ResourcesZip,
                *config,
                none,
            );
            lemma_same_work(
                work@,
                work_with(
                    Stage::CompileResources,
                    |name: PathName| resolved(c0, name, *config, time),
                    *config,
                ),
            );
        }
    }
    Ok(work)
}

/// Linking the resource archive, the manifest and the platform jar into the
/// package shell.
pub fn link_resources(resolver: &mut PathResolver, config: &Config) -> (r: Result<Work, PathError>)
    ensures
        forall|time: Seq<char>|
            planned(old(resolver)@, final(resolver)@, Stage::LinkResources, *config, time, r),
{
    let ghost c0 = resolver@;
    let res_zip = get_resources_zip_path(resolver, config)?;
    let ghost c1 = resolver@;
    let base_apk = get_base_apk_path(resolver, config)?;
    let manifest = path_join(config.apk.apk_outdir.as_str(), "AndroidManifest.xml");
    let mut args: Vec<String> = Vec::new();
    push_name(&mut args, "link");
    push_name(&mut args, "--proto-format");
    push_name(&mut args, "-o");
    push_name(&mut args, base_apk.as_str());
    push_name(&mut args, "-I");
    push_name(&mut args, config.jar.android_jar_path.as_str());
    push_name(&mut args, "--min-sdk-version");
    push_name(&mut args, config.apk.min_sdk_version.as_str());
    push_name(&mut args, "--target-sdk-version");
    push_name(&mut args, config.apk.target_sdk_version.as_str());
    push_name(&mut args, "--version-code");
    push_name(&mut args, config.apk.version_code.as_str());
    push_name(&mut args, "--version-name");
    push_name(&mut args, config.apk.version_name.as_str());
    push_name(&mut args, "--manifest");
    push_name(&mut args, manifest.as_str());
    push_name(&mut args, "-R");
    push_name(&mut args, res_zip.as_str());
    push_name(&mut args, "--auto-add-overlay");
    let work = run_afresh(base_apk.as_str(), "aapt2", args);
    proof {
        assert forall|time: Seq<char>|
            planned(c0, resolver@, Stage::LinkResources, *config, time, Ok(work)) by {
            let none = Seq::<char>::empty();
            lemma_time_matters_to_stamped_only(c0, PathName::ResourcesZip, *config, none, time);
            lemma_time_matters_to_stamped_only(c1, PathName::BaseApk, *config, none, time);
            lemma_time_matters_to_stamped_only(c0, PathName::BaseApk, *config, none, time);
            lemma_remembering_changes_no_answer(
                c0,
                PathName::ResourcesZip,
                PathName::BaseApk,
                *config,
                none,
            );
            lemma_same_work(
                work@,
                work_with(
                    Stage::LinkResources,
                    |name: PathName| resolved(c0, name, *config, time),
                    *config,
                ),
            );
        }
    }
    Ok(work)
}

/// Unpacking the package shell into the module directory.
pub fn unzip_apk(resolver: &mut PathResolver, config: &Config) -> (r: Result<Work, PathError>)
    ensures
        forall|time: Seq<char>|
            planned(old(resolver)@, final(resolver)@, Stage::UnzipApk, *config, time, r),
{
    let ghost c0 = resolver@;
    let base_apk = get_base_apk_path(resolver, config)?;
    let ghost c1 = resolver@;
    let base_dir = get_base_dir_path(resolver, config)?;
    let work = Work::Unzip { archive: base_apk, dest: base_dir };
    proof {
        assert forall|time: Seq<char>|
            planned(c0, resolver@, Stage::UnzipApk, *config, time, Ok(work)) by {
            let none = Seq::<char>::empty();
            lemma_time_matters_to_stamped_only(c0, PathName::BaseApk, *config, none, time);
            lemma_time_matters_to_stamped_only(c1, PathName::BaseDir, *config, none, time);
            lemma_time_matters_to_stamped_only(c0, PathName::BaseDir, *config, none, time);
            lemma_remembering_changes_no_answer(
                c0,
                PathName::BaseApk,
                PathName::BaseDir,
                *config,
                none,
            );
        }
    }
    Ok(work)
}

/// Laying out the module below the output directory.
pub fn lay_out_resources(resolver: &mut PathResolver, config: &Config) -> (r: Result<
    Work,
    PathError,
>)
    ensures
        forall|time: Seq<char>|
            planned(old(resolver)@, final(resolver)@, Stage::CopyResources, *config, time, r),
{
    let ghost c0 = resolver@;
    let root = get_root_path(resolver, config)?;
    let ghost c1 = resolver@;
    let base_dir = get_base_dir_path(resolver, config)?;
    let ghost c2 = resolver@;
    let manifest_dir = get_manifest_path(resolver, config)?;
    let manifest_from = path_join(base_dir.as_str(), "AndroidManifest.xml");
    let manifest_to = path_join(manifest_dir.as_str(), "AndroidManifest.xml");
    let work = Work::CopyResources { root, manifest_from, manifest_to };
    proof {
        assert forall|time: Seq<char>|
            planned(c0, resolver@, Stage::CopyResources, *config, time, Ok(work)) by {
            let none = Seq::<char>::empty();
            lemma_time_matters_to_stamped_only(c0, PathName::Root, *config, none, time);
            lemma_time_matters_to_stamped_only(c1, PathName::BaseDir, *config, none, time);
            lemma_time_matters_to_stamped_only(c0, PathName::BaseDir, *config, none, time);
            lemma_time_matters_to_stamped_only(c2, PathName::Manifest, *config, none, time);
            lemma_time_matters_to_stamped_only(c0, PathName::Manifest, *config, none, time);
            lemma_time_matters_to_stamped_only(c1, PathName::Manifest, *config, none, time);
            lemma_remembering_changes_no_answer(
                c0,
                PathName::Root,
                PathName::BaseDir,
                *config,
                none,
            );
            lemma_remembering_changes_no_answer(
                c1,
                PathName::BaseDir,
                PathName::Manifest,
                *config,
                none,
            );
            lemma_remembering_changes_no_answer(
                c0,
                PathName::Root,
                PathName::Manifest,
                *config,
                none,
            );
        }
    }
    Ok(work)
}

/// Packing the module directory into the module archive.
pub fn zip_resources(resolver: &mut PathResolver, config: &Config) -> (r: Result<Work, PathError>)
    ensures
        forall|time: Seq<char>|
            planned(old(resolver)@, final(resolver)@, Stage::ZipResources, *config, time, r),
{
    let ghost c0 = resolver@;
    let base_zip = get_base_zip_path(resolver, config)?;
    let ghost c1 = resolver@;
    let base_dir = get_base_dir_path(resolver, config)?;
    let work = Work::ZipDir { dir: base_dir, archive: base_zip, method: Compression::Deflated };
    proof {
        assert forall|time: Seq<char>|
            planned(c0, resolver@, Stage::ZipResources, *config, time, Ok(work)) by {
            let none = Seq::<char>::empty();
            lemma_time_matters_to_stamped_only(c0, PathName::BaseZip, *config, none, time);
            lemma_time_matters_to_stamped_only(c1, PathName::BaseDir, *config, none, time);
            lemma_time_matters_to_stamped_only(c0, PathName::BaseDir, *config, none, time);
            lemma_remembering_changes_no_answer(
                c0,
                PathName::BaseZip,
                PathName::BaseDir,
                *config,
                none,
            );
        }
    }
    Ok(work)
}

/// Building the bundle from the module archive. The bundle configuration is
/// handed on only where one is configured: an empty path means that there is
/// none.
pub fn compile_app_bundle(resolver: &mut PathResolver, config: &Config, time: &str) -> (r: Result<
    Work,
    PathError,
>)
    ensures
        planned(old(resolver)@, final(resolver)@, Stage::CompileAppBundle, *config, time@, r),
{
    let ghost c0 = resolver@;
    let aab = get_aab_path(resolver, config, time)?;
    let ghost c1 = resolver@;
    let base_zip = get_base_zip_path(resolver, config)?;
    proof {
        let none = Seq::<char>::empty();
        lemma_time_matters_to_stamped_only(c1, PathName::BaseZip, *config, none, time@);
        lemma_remembering_changes_no_answer(
            c0,
            PathName::Aab,
            PathName::BaseZip,
            *config,
            time@,
        );
    }
    let mut args: Vec<String> = Vec::new();
    push_name(&mut args, "-jar");
    push_name(&mut args, config.jar.bundletool_path.as_str());
    push_name(&mut args, "build-bundle");
    push_name(&mut args, "--modules");
    push_name(&mut args, base_zip.as_str());
    push_name(&mut args, "--output");
    push_name(&mut args, aab.as_str());
    if config.config.bundletool_config_path.as_str().unicode_len() != 0 {
        let option = prefixed("--config=", config.config.bundletool_config_path.as_str());
        push_name(&mut args, option.as_str());
    }
    let work = run_afresh(aab.as_str(), "java", args);
    proof {
        lemma_same_work(
            work@,
            work_with(
                Stage::CompileAppBundle,
                |name: PathName| resolved(c0, name, *config, time@),
                *config,
            ),
        );
    }
    Ok(work)
}

/// Signing the bundle.
pub fn sign_app_bundle(resolver: &mut PathResolver, config: &Config, time: &str) -> (r: Result<
    Work,
    PathError,
>)
    ensures
        planned(old(resolver)@, final(resolver)@, Stage::SignAppBundle, *config, time@, r),
{
    let ghost c0 = resolver@;
    let aab = get_aab_path(resolver, config, time)?;
    let mut args: Vec<String> = Vec::new();
    push_name(&mut args, "-digestalg");
    push_name(&mut args, "SHA1");
    push_name(&mut args, "-sigalg");
    push_name(&mut args, "SHA1withRSA");
    push_name(&mut args, "-keystore");
    push_name(&mut args, config.sign.keystore.as_str());
    push_name(&mut args, "-storepass");
    push_name(&mut args, config.sign.keystore_pass.as_str());
    push_name(&mut args, "-keypass");
    push_name(&mut args, config.sign.keystore_key_pass.as_str());
    push_name(&mut args, aab.as_str());
    push_name(&mut args, config.sign.keystore_key_alias.as_str());
    let work = run("jarsigner", args);
    proof {
        lemma_same_work(
            work@,
            work_with(
                Stage::SignAppBundle,
                |name: PathName| resolved(c0, name, *config, time@),
                *config,
            ),
        );
    }
    Ok(work)
}

/// Deriving the installable split packages from the bundle.
pub fn build_apks(resolver: &mut PathResolver, config: &Config, time: &str) -> (r: Result<
    Work,
    PathError,
>)
    ensures
        planned(old(resolver)@, final(resolver)@, Stage::BuildApks, *config, time@, r),
{
    let ghost c0 = resolver@;
    let apks = get_apks_path(resolver, config)?;
    let aab = get_aab_path(resolver, config, time)?;
    proof {
        let none = Seq::<char>::empty();
        lemma_time_matters_to_stamped_only(c0, PathName::Apks, *config, none, time@);
        lemma_remembering_changes_no_answer(c0, PathName::Apks, PathName::Aab, *config, time@);
    }
    let store_pass = prefixed("pass:", config.sign.keystore_pass.as_str());
    let key_pass = prefixed("pass:", config.sign.keystore_key_pass.as_str());
    let mut args: Vec<String> = Vec::new();
    push_name(&mut args, "-jar");
    push_name(&mut args, config.jar.bundletool_path.as_str());
    push_name(&mut args, "build-apks");
    push_name(&mut args, "--bundle");
    push_name(&mut args, aab.as_str());
    push_name(&mut args, "--output");
    push_name(&mut args, apks.as_str());
    push_name(&mut args, "--ks");
    push_name(&mut args, config.sign.keystore.as_str());
    push_name(&mut args, "--ks-pass");
    push_name(&mut args, store_pass.as_str());
    push_name(&mut args, "--ks-key-alias");
    push_name(&mut args, config.sign.keystore_key_alias.as_str());
    push_name(&mut args, "--key-pass");
    push_name(&mut args, key_pass.as_str());
    let work = run_afresh(apks.as_str(), "java", args);
    proof {
        lemma_same_work(
            work@,
            work_with(
                Stage::BuildApks,
                |name: PathName| resolved(c0, name, *config, time@),
                *config,
            ),
        );
    }
    Ok(work)
}

/// Installing the split packages on the device.
pub fn install_apks(resolver: &mut PathResolver, config: &Config) -> (r: Result<Work, PathError>)
    ensures
        forall|time: Seq<char>|
            planned(old(resolver)@, final(resolver)@, Stage::InstallApks, *config, time, r),
{
    let ghost c0 = resolver@;
    let apks = get_apks_path(resolver, config)?;
    let mut args: Vec<String> = Vec::new();
    push_name(&mut args, "-jar");
    push_name(&mut args, config.jar.bundletool_path.as_str());
    push_name(&mut args, "install-apks");
    push_name(&mut args, "--apks");
    push_name(&mut args, apks.as_str());
    let work = run("java", args);
    proof {
        assert forall|time: Seq<char>|
            planned(c0, resolver@, Stage::InstallApks, *config, time, Ok(work)) by {
            let none = Seq::<char>::empty();
            lemma_time_matters_to_stamped_only(c0, PathName::Apks, *config, none, time);
            lemma_same_work(
                work@,
                work_with(
                    Stage::InstallApks,
                    |name: PathName| resolved(c0, name, *config, time),
                    *config,
                ),
            );
        }
    }
    Ok(work)
}

/// The work of `stage`.
pub fn plan(stage: Stage, resolver: &mut PathResolver, config: &Config, time: &str) -> (r: Result<
    Work,
    PathError,
>)
    ensures
        planned(old(resolver)@, final(resolver)@, stage, *config, time@, r),
{
    match stage {
        Stage::ApktoolRmCache => apktool_rm_cache(resolver, config),
        Stage::ApktoolBuild => apktool_build(resolver, config, time),
        Stage::Zipalign => zipalign(resolver, config, time),
        Stage::Apksigner => apksigner(resolver, config, time),
        Stage::InstallApk => install_apk(resolver, config, time),
        Stage::LaunchApp => Ok(launch_app(config)),
        Stage::DecodeApk => Ok(decode_apk(config)),
        Stage::CompileResources => compile_resources(resolver, config),
        Stage::LinkResources => link_resources(resolver, config),
        Stage::UnzipApk => unzip_apk(resolver, config),
        Stage::CopyResources => lay_out_resources(resolver, config),
        Stage::ZipResources => zip_resources(resolver, config),
        Stage::CompileAppBundle => compile_app_bundle(resolver, config, time),
        Stage::SignAppBundle => sign_app_bundle(resolver, config, time),
        Stage::BuildApks => build_apks(resolver, config, time),
        Stage::InstallApks => install_apks(resolver, config),
    }
}

} // verus!
