//! The two build flows. A [`Build`] hands out one stage at a time; its caller
//! does the stage's work and reports how it went. The first stage that fails
//! ends the build: no later stage is handed out.

use crate::config::Config;
use crate::file_path::{
    coherent, get_aab_path, get_apk_sign_path, lemma_answers_follow_configuration, location,
    remembered, resolved, PathError, PathName, PathResolver,
};
use crate::stage::{
    after_asking, lemma_same_work, plan, stage_name, work_with, Stage, Work, WorkView,
};
use vstd::prelude::*;

verus! {

/// How the work of a stage went.
#[derive(Debug, Clone, PartialEq, Eq)]
pub enum Report {
    /// The work was done.
    Done,
    /// The stage's tool ran to its end and its exit status was not success.
    ToolFailed,
    /// The work broke off, for the given cause.
    Broke(String),
}

/// The mathematical value of a [`Report`].
pub enum ReportView {
    Done,
    ToolFailed,
    Broke(Seq<char>),
}

impl View for Report {
    type V = ReportView;

    open spec fn view(&self) -> ReportView {
        match self {
            Report::Done => ReportView::Done,
            Report::ToolFailed => ReportView::ToolFailed,
            Report::Broke(cause) => ReportView::Broke(cause@),
        }
    }
}

/// How far a build has come.
#[derive(Debug, Clone, PartialEq, Eq)]
pub enum Outcome {
    /// A stage is waiting to be done.
    Running,
    /// Every stage went through; the artifact is at this path.
    Succeeded(String),
    /// This stage failed, for this cause, and no stage after it was begun.
    Failed(Stage, String),
}

/// The mathematical value of an [`Outcome`].
pub enum OutcomeView {
    Running,
    Succeeded(Seq<char>),
    Failed(Stage, Seq<char>),
}

impl View for Outcome {
    type V = OutcomeView;

    open spec fn view(&self) -> OutcomeView {
        match self {
            Outcome::Running => OutcomeView::Running,
            Outcome::Succeeded(path) => OutcomeView::Succeeded(path@),
            Outcome::Failed(stage, cause) => OutcomeView::Failed(*stage, cause@),
        }
    }
}

/// The mathematical value of a [`Build`]: its stages with their work, the
/// path of its artifact, how many stages went through, and, if the one after
/// them failed, the cause.
pub struct BuildView {
    pub stages: Seq<Stage>,
    pub works: Seq<WorkView>,
    pub artifact: Seq<char>,
    pub done: nat,
    pub failed: Option<Seq<char>>,
}

/// The cause that a report gives for the failure of a stage: for a tool that
/// failed, the stage's name and ` failed`; for work that broke off, the cause
/// that was reported.
pub open spec fn cause_of(stage: Stage, report: ReportView) -> Option<Seq<char>> {
    match report {
        ReportView::Done => None,
        ReportView::ToolFailed => Some(stage_name(stage) + " failed"@),
        ReportView::Broke(cause) => Some(cause),
    }
}

impl BuildView {
    /// There is work for every stage, and the build has not gone past its
    /// last stage.
    pub open spec fn wf(self) -> bool {
        &&& self.works.len() == self.stages.len()
        &&& self.done <= self.stages.len()
        &&& self.failed is Some ==> self.done < self.stages.len()
    }

    /// How far the build has come.
    pub open spec fn outcome(self) -> OutcomeView {
        if self.failed is Some {
            OutcomeView::Failed(self.stages[self.done as int], self.failed->0)
        } else if self.done >= self.stages.len() {
            OutcomeView::Succeeded(self.artifact)
        } else {
            OutcomeView::Running
        }
    }

    /// The stage that is waiting to be done, with its work, if the build is
    /// running.
    pub open spec fn current(self) -> Option<(Stage, WorkView)> {
        if self.outcome() is Running {
            Some((self.stages[self.done as int], self.works[self.done as int]))
        } else {
            None
        }
    }

    /// The build after the report on the stage that was waiting: where the
    /// work was done the next stage waits; otherwise the build has failed at
    /// this stage, for the cause that the report gives. A build that is not
    /// running takes no report.
    pub open spec fn report(self, report: ReportView) -> BuildView {
        if !(self.outcome() is Running) {
            self
        } else if report is Done {
            BuildView { done: self.done + 1, ..self }
        } else {
            BuildView { failed: cause_of(self.stages[self.done as int], report), ..self }
        }
    }

    /// The build after a run of reports.
    pub open spec fn run(self, reports: Seq<ReportView>) -> BuildView
        decreases reports.len(),
    {
        if reports.len() == 0 {
            self
        } else {
            self.run(reports.drop_last()).report(reports.last())
        }
    }
}

/// The work of a stage for a configuration and a time stamp.
pub open spec fn work_of(stage: Stage, config: Config, time: Seq<char>) -> WorkView {
    work_with(stage, |name: PathName| location(name, config, time), config)
}

/// A build that has not begun.
pub open spec fn fresh(
    stages: Seq<Stage>,
    config: Config,
    time: Seq<char>,
    artifact: PathName,
) -> BuildView {
    BuildView {
        stages,
        works: Seq::new(stages.len(), |i: int| work_of(stages[i], config, time)),
        artifact: location(artifact, config, time),
        done: 0,
        failed: None,
    }
}

/// What follows the signing: nothing, unless the artifact is to be installed;
/// then the stages that install it and, if the application is to be
/// launched, the launch.
pub open spec fn afterwards(install: bool, launch: bool, installing: Seq<Stage>) -> Seq<Stage> {
    if !install {
        Seq::empty()
    } else if launch {
        installing.push(Stage::LaunchApp)
    } else {
        installing
    }
}

/// The stages of the package flow.
pub open spec fn apk_flow(install: bool, launch: bool) -> Seq<Stage> {
    seq![Stage::ApktoolRmCache, Stage::ApktoolBuild, Stage::Zipalign, Stage::Apksigner]
        + afterwards(install, launch, seq![Stage::InstallApk])
}

/// The stages of the bundle flow. The source package is decoded first where
/// the output directory is not there yet.
pub open spec fn bundle_flow(decoded: bool, install: bool, launch: bool) -> Seq<Stage> {
    (if decoded {
        Seq::<Stage>::empty()
    } else {
        seq![Stage::DecodeApk]
    }) + seq![
        Stage::CompileResources,
        Stage::LinkResources,
        Stage::UnzipApk,
        Stage::CopyResources,
        Stage::ZipResources,
        Stage::CompileAppBundle,
        Stage::SignAppBundle,
    ] + afterwards(install, launch, seq![Stage::BuildApks, Stage::InstallApks])
}

/// A build that has failed stays failed, at the same stage, and hands out
/// nothing, whatever is reported to it.
pub proof fn lemma_failed_build_stays(build: BuildView, reports: Seq<ReportView>)
    requires
        build.failed is Some,
    ensures
        build.run(reports) == build,
        build.run(reports).current() is None,
    decreases reports.len(),
{
    if reports.len() > 0 {
        lemma_failed_build_stays(build, reports.drop_last());
    }
}

/// While every report says that the work was done, the build moves on by one
/// stage for each.
pub proof fn lemma_successes_advance(build: BuildView, reports: Seq<ReportView>)
    requires
        build.wf(),
        build.failed is None,
        build.done + reports.len() <= build.stages.len(),
        forall|i: int| 0 <= i < reports.len() ==> reports[i] is Done,
    ensures
        build.run(reports) == (BuildView { done: build.done + reports.len(), ..build }),
    decreases reports.len(),
{
    if reports.len() > 0 {
        lemma_successes_advance(build, reports.drop_last());
    }
}

/// The run of reports can be cut in two.
pub proof fn lemma_run_in_two(build: BuildView, reports: Seq<ReportView>, cut: int)
    requires
        0 <= cut <= reports.len(),
    ensures
        build.run(reports) == build.run(reports.take(cut)).run(reports.skip(cut)),
    decreases reports.len() - cut,
{
    if cut == reports.len() {
        assert(reports.take(cut) =~= reports);
        assert(reports.skip(cut) =~= Seq::<ReportView>::empty());
    } else {
        let front = reports.drop_last();
        lemma_run_in_two(build, front, cut);
        assert(front.take(cut) =~= reports.take(cut));
        assert(reports.skip(cut).drop_last() =~= front.skip(cut));
        assert(reports.skip(cut).last() == reports.last());
    }
}

/// Fail-fast. Where the first `k` stages that a running build hands out go
/// through and the one after them does not, the build has failed at that
/// stage, for the cause that was reported, from then on, and it hands out no
/// stage again: the stages after the failed one are never begun.
pub proof fn lemma_fail_fast(build: BuildView, reports: Seq<ReportView>, k: int)
    requires
        build.wf(),
        build.failed is None,
        0 <= k < reports.len(),
        build.done + k < build.stages.len(),
        forall|i: int| 0 <= i < k ==> reports[i] is Done,
        !(reports[k] is Done),
    ensures
        forall|j: int|
            k < j <= reports.len() ==> (#[trigger] build.run(reports.take(j))).outcome()
                == OutcomeView::Failed(
                build.stages[build.done + k],
                cause_of(build.stages[build.done + k], reports[k])->0,
            ) && build.run(reports.take(j)).current() is None,
{
    let before = reports.take(k);
    lemma_successes_advance(build, before);
    let at_failure = build.run(reports.take(k + 1));
    assert(reports.take(k + 1).drop_last() =~= before);
    assert(reports.take(k + 1).last() == reports[k]);
    assert(at_failure.failed is Some && at_failure.done == build.done + k);
    assert forall|j: int| k < j <= reports.len() implies (#[trigger] build.run(
        reports.take(j),
    )).outcome() == OutcomeView::Failed(
        build.stages[build.done + k],
        cause_of(build.stages[build.done + k], reports[k])->0,
    ) && build.run(reports.take(j)).current() is None by {
        let upto = reports.take(j);
        lemma_run_in_two(build, upto, k + 1);
        assert(upto.take(k + 1) =~= reports.take(k + 1));
        lemma_failed_build_stays(at_failure, upto.skip(k + 1));
    }
}

/// A build whose every stage goes through ends with its artifact.
pub proof fn lemma_all_through(build: BuildView, reports: Seq<ReportView>)
    requires
        build.wf(),
        build.failed is None,
        build.done + reports.len() == build.stages.len(),
        forall|i: int| 0 <= i < reports.len() ==> reports[i] is Done,
    ensures
        build.run(reports).outcome() == OutcomeView::Succeeded(build.artifact),
{
    lemma_successes_advance(build, reports);
}

/// Planning a stage with a resolver that has only ever been asked with this
/// configuration and time stamp gives the stage's work for them, and leaves
/// such a resolver.
pub proof fn lemma_planning_follows_configuration(
    cache: Map<PathName, Seq<char>>,
    stage: Stage,
    config: Config,
    time: Seq<char>,
)
    requires
        coherent(cache, config, time),
    ensures
        coherent(after_asking(cache, stage, config, time), config, time),
        work_with(stage, |name: PathName| resolved(cache, name, config, time), config) == work_of(
            stage,
            config,
            time,
        ),
{
    assert forall|name: PathName| resolved(cache, name, config, time) == location(
        name,
        config,
        time,
    ) by {
        lemma_answers_follow_configuration(cache, name, config, time);
    }
    assert forall|wider: Map<PathName, Seq<char>>, name: PathName|
        coherent(wider, config, time) implies coherent(
        #[trigger] remembered(wider, name, config, time),
        config,
        time,
    ) by {
        lemma_answers_follow_configuration(wider, name, config, time);
    }
    lemma_same_work(
        work_with(stage, |name: PathName| resolved(cache, name, config, time), config),
        work_of(stage, config, time),
    );
}

/// One build: its stages with their work, and how far it has come.
pub struct Build {
    stages: Vec<Stage>,
    works: Vec<Work>,
    artifact: String,
    done: usize,
    failed: Option<String>,
}

impl View for Build {
    type V = BuildView;

    closed spec fn view(&self) -> BuildView {
        BuildView {
            stages: self.stages@,
            works: Seq::new(self.works.len() as nat, |i: int| self.works[i]@),
            artifact: self.artifact@,
            done: self.done as nat,
            failed: match self.failed {
                Some(cause) => Some(cause@),
                None => None,
            },
        }
    }
}

impl Build {
    #[verifier::type_invariant]
    spec fn inv(self) -> bool {
        self@.wf()
    }

    /// How far the build has come.
    pub fn outcome(&self) -> (r: Outcome)
        ensures
            r@ == self@.outcome(),
    {
        proof {
            use_type_invariant(self);
        }
        match &self.failed {
            Some(cause) => Outcome::Failed(self.stages[self.done], cause.clone()),
            None => {
                if self.done >= self.stages.len() {
                    Outcome::Succeeded(self.artifact.clone())
                } else {
                    Outcome::Running
                }
            },
        }
    }

    /// The stage that is waiting to be done, with its work, if the build is
    /// running.
    pub fn current(&self) -> (r: Option<(Stage, &Work)>)
        ensures
            match r {
                Some((stage, work)) => self@.current() == Some((stage, work@)),
                None => self@.current() is None,
            },
    {
        proof {
            use_type_invariant(self);
        }
        if self.failed.is_none() && self.done < self.stages.len() {
            Some((self.stages[self.done], &self.works[self.done]))
        } else {
            None
        }
    }

    /// Takes the report on the stage that was waiting. A build that is not
    /// running takes no report: it stays as it is.
    pub fn report(&mut self, report: Report)
        ensures
            final(self)@ == old(self)@.report(report@),
    {
        proof {
            use_type_invariant(&*self);
        }
        if self.failed.is_none() && self.done < self.stages.len() {
            match report {
                Report::Done => {
                    self.done = self.done + 1;
                },
                Report::ToolFailed => {
                    self.failed = Some(self.stages[self.done].failure_message());
                },
                Report::Broke(cause) => {
                    self.failed = Some(cause);
                },
            }
        }
    }
}

/// The stages of the package flow.
pub fn apk_stages(install: bool, launch: bool) -> (r: Vec<Stage>)
    ensures
        r@ == apk_flow(install, launch),
{
    let mut stages: Vec<Stage> = Vec::new();
    stages.push(Stage::ApktoolRmCache);
    stages.push(Stage::ApktoolBuild);
    stages.push(Stage::Zipalign);
    stages.push(Stage::Apksigner);
    if install {
        stages.push(Stage::InstallApk);
        if launch {
            stages.push(Stage::LaunchApp);
        }
    }
    assert(stages@ =~= apk_flow(install, launch));
    stages
}

/// The stages of the bundle flow.
pub fn bundle_stages(decoded: bool, install: bool, launch: bool) -> (r: Vec<Stage>)
    ensures
        r@ == bundle_flow(decoded, install, launch),
{
    let mut stages: Vec<Stage> = Vec::new();
    if !decoded {
        stages.push(Stage::DecodeApk);
    }
    stages.push(Stage::CompileResources);
    stages.push(Stage::LinkResources);
    stages.push(Stage::UnzipApk);
    stages.push(Stage::CopyResources);
    stages.push(Stage::ZipResources);
    stages.push(Stage::CompileAppBundle);
    stages.push(Stage::SignAppBundle);
    if install {
        stages.push(Stage::BuildApks);
        stages.push(Stage::InstallApks);
        if launch {
            stages.push(Stage::LaunchApp);
        }
    }
    assert(stages@ =~= bundle_flow(decoded, install, launch));
    stages
}

/// Plans every stage of a flow, in order, with one resolver.
fn plan_all(stages: &Vec<Stage>, resolver: &mut PathResolver, config: &Config, time: &str) -> (r:
    Result<Vec<Work>, PathError>)
    requires
        coherent(old(resolver)@, *config, time@),
    ensures
        coherent(final(resolver)@, *config, time@),
        r matches Ok(works) && works.len() == stages.len() && forall|i: int|
            0 <= i < works.len() ==> (#[trigger] works[i])@ == work_of(stages[i], *config, time@),
{
    let mut works: Vec<Work> = Vec::new();
    let mut i: usize = 0;
    while i < stages.len()
        invariant
            i <= stages.len(),
            works.len() == i,
            coherent(resolver@, *config, time@),
            forall|j: int|
                0 <= j < i ==> (#[trigger] works[j])@ == work_of(stages[j], *config, time@),
        decreases stages.len() - i,
    {
        proof {
            lemma_planning_follows_configuration(resolver@, stages[i as int], *config, time@);
        }
        let work = plan(stages[i], resolver, config, time)?;
        works.push(work);
        i += 1;
    }
    Ok(works)
}

/// Begins a build of the given stages.
fn begin(stages: Vec<Stage>, config: &Config, time: &str, artifact: PathName) -> (r: Result<
    Build,
    PathError,
>)
    requires
        artifact == PathName::ApkSign || artifact == PathName::Aab,
    ensures
        r matches Ok(build) && build@ == fresh(stages@, *config, time@, artifact),
{
    let mut resolver = PathResolver::new();
    let works = plan_all(&stages, &mut resolver, config, time)?;
    proof {
        lemma_answers_follow_configuration(resolver@, artifact, *config, time@);
    }
    let path = match artifact {
        PathName::ApkSign => get_apk_sign_path(&mut resolver, config, time)?,
        _ => get_aab_path(&mut resolver, config, time)?,
    };
    let build = Build { stages, works, artifact: path, done: 0, failed: None };
    assert(build@.works =~= fresh(build@.stages, *config, time@, artifact).works);
    Ok(build)
}

/// Begins a build of the signed package: the builder's cache is cleared, the
/// package is built from the source project, aligned and signed; then, where
/// the configuration asks for it, installed, and the application launched.
/// The artifact is the signed package.
pub fn build_apk(config: &Config, time: &str) -> (r: Result<Build, PathError>)
    ensures
        r matches Ok(build) && build@ == fresh(
            apk_flow(config.config.install, config.config.launch),
            *config,
            time@,
            PathName::ApkSign,
        ),
{
    let stages = apk_stages(config.config.install, config.config.launch);
    begin(stages, config, time, PathName::ApkSign)
}

/// Begins a build of the signed bundle. `decoded` says whether the output
/// directory is there already; where it is not, the source package is decoded
/// first. Then the resources are compiled and linked, the package shell is
/// unpacked, the module is laid out and packed, and the bundle is built and
/// signed; then, where the configuration asks for it, the split packages are
/// derived and installed, and the application launched. The artifact is the
/// bundle.
pub fn build_aab(config: &Config, time: &str, decoded: bool) -> (r: Result<Build, PathError>)
    ensures
        r matches Ok(build) && build@ == fresh(
            bundle_flow(decoded, config.config.install, config.config.launch),
            *config,
            time@,
            PathName::Aab,
        ),
{
    let stages = bundle_stages(decoded, config.config.install, config.config.launch);
    begin(stages, config, time, PathName::Aab)
}

} // verus!
