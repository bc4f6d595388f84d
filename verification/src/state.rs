//! The launcher's state and how it reacts to buttons and to what its
//! background work reports. Each reaction changes the state and returns the
//! work left to do outside, in order.

use vstd::prelude::*;
use vstd::multiset::Multiset;
use crate::project::{
    contains_path, find_path, first_with_path, has_path, initial_status, initial_status_of,
    paths_distinct, project_name, LauncherConfig, Project, ProjectStatus,
};
use crate::tables::{ActiveDownloads, StatusTable};
use crate::paths::{PathKey, path_key, same_path, is_same_path};
use crate::ui::{cards_match, is_recent_order, ActiveTab, ButtonAction, ProjectCardView, UiConfig};

verus! {

/// Work the launcher leaves to the world outside.
#[derive(Clone, Debug, PartialEq, Eq)]
pub enum Effect {
    /// Ask the user for a folder.
    PickFolder,
    /// Start the game in this folder and report how that went.
    Launch(String),
    /// Stop the game started from this folder, if it runs.
    Kill(String),
    /// Write the history of projects to disk.
    SaveConfig,
    /// Write these interface settings to disk.
    SaveUiConfig(UiConfig),
    /// Open this address in the web browser.
    OpenUrl(String),
    /// Close the launcher.
    Exit,
    /// Clone and build this store game, and report how that went.
    StartDownload { name: String, url: String },
    /// Draw the list again.
    Refresh,
}

/// How starting a game went.
#[derive(Clone, Debug, PartialEq, Eq)]
pub enum LaunchOutcome {
    /// The game runs; `now` is the time, in seconds since the Unix epoch.
    Started { now: u64 },
    /// The game could not be started.
    Failed,
}

/// How a game that was running has ended.
#[derive(Clone, Debug, PartialEq, Eq)]
pub enum ExitOutcome {
    /// It exited with success.
    Succeeded,
    /// It exited with a failure.
    Failed,
    /// Its state could not be read.
    Unknown,
}

/// What the launcher knows.
pub struct LauncherState {
    pub config: LauncherConfig,
    pub statuses: StatusTable,
    pub active_tab: ActiveTab,
    pub downloads: ActiveDownloads,
}

/// The name a new project gets from the last part of its path.
pub open spec fn name_for(file_name: Option<String>) -> Seq<char> {
    match file_name {
        Some(n) => n@,
        None => "Unknown Game"@,
    }
}

/// `ps` is `old` with one project added at the end: named `name`, at
/// `path`, never launched.
pub open spec fn appended(ps: Seq<Project>, old: Seq<Project>, name: Seq<char>, path: Seq<char>) -> bool {
    &&& ps.len() == old.len() + 1
    &&& ps.drop_last() == old
    &&& ps.last().name@ == name
    &&& ps.last().path@ == path
    &&& ps.last().last_launched is None
}

/// The history after a launch at `now` of the game at `path`: the first
/// project with that path gets `now` as its last launch.
pub open spec fn stamped(ps: Seq<Project>, path: Seq<char>, now: u64) -> Seq<Project> {
    match first_with_path(ps, path) {
        Some(i) => ps.update(i, Project { last_launched: Some(now), ..ps[i] }),
        None => ps,
    }
}

/// The statuses after each project's folder has been looked at, in order:
/// `Invalid` where `valid` says the folder holds no game, else `Idle`.
pub open spec fn with_initial_statuses(
    m: Map<PathKey, ProjectStatus>,
    ps: Seq<Project>,
    valid: Seq<bool>,
) -> Map<PathKey, ProjectStatus>
    decreases ps.len(),
{
    if ps.len() == 0 {
        m
    } else {
        with_initial_statuses(m, ps.drop_last(), valid.drop_last()).insert(
            path_key(ps.last().path@),
            initial_status(valid.last()),
        )
    }
}

/// The status a game gets when it ends.
pub open spec fn status_after_exit(outcome: ExitOutcome) -> ProjectStatus {
    match outcome {
        ExitOutcome::Failed => ProjectStatus::FailedLaunch,
        _ => ProjectStatus::Idle,
    }
}

/// The names of the store games whose download the effects start, each
/// as often as it is started.
pub open spec fn started_jobs(effects: Seq<Effect>) -> Multiset<Seq<char>>
    decreases effects.len(),
{
    if effects.len() == 0 {
        Multiset::empty()
    } else {
        let rest = started_jobs(effects.drop_last());
        match effects.last() {
            Effect::StartDownload { name, .. } => rest.insert(name@),
            _ => rest,
        }
    }
}

/// The downloads that pressing the download button of `name` starts while
/// the downloads of `running` run: one of `name`, unless one runs already.
pub open spec fn download_started(running: Set<Seq<char>>, name: Seq<char>) -> Multiset<Seq<char>> {
    if running.contains(name) {
        Multiset::empty()
    } else {
        Multiset::singleton(name)
    }
}

/// The downloads the launcher notes as running are those of the jobs in
/// flight: one job for each name it notes, none for any other name.
pub open spec fn jobs_match(running: Set<Seq<char>>, jobs: Multiset<Seq<char>>) -> bool {
    forall|n: Seq<char>|
        #[trigger] jobs.count(n) == if running.contains(n) {
            1nat
        } else {
            0nat
        }
}

/// What happens to the downloads of store games: the download button of a
/// game is pressed, or the result of a download of it comes back.
pub enum DownloadStep {
    Press(Seq<char>),
    Finish(Seq<char>),
}

/// The downloads noted as running, and the jobs in flight, after the
/// steps, from a launcher that runs none: a press notes the game and
/// starts what [`download_started`] says; a result ends one job of the game
/// and the note of it.
pub open spec fn replay_downloads(steps: Seq<DownloadStep>) -> (Set<Seq<char>>, Multiset<Seq<char>>)
    decreases steps.len(),
{
    if steps.len() == 0 {
        (Set::empty(), Multiset::empty())
    } else {
        let (running, jobs) = replay_downloads(steps.drop_last());
        match steps.last() {
            DownloadStep::Press(n) => (running.insert(n), jobs.add(download_started(running, n))),
            DownloadStep::Finish(n) => (running.remove(n), jobs.remove(n)),
        }
    }
}

/// The statuses after the games in `ended` have ended, in order.
pub open spec fn exits_applied(
    m: Map<PathKey, ProjectStatus>,
    ended: Seq<(String, ExitOutcome)>,
) -> Map<PathKey, ProjectStatus>
    decreases ended.len(),
{
    if ended.len() == 0 {
        m
    } else {
        exits_applied(m, ended.drop_last()).insert(
            path_key(ended.last().0@),
            status_after_exit(ended.last().1),
        )
    }
}

/// Whether the launcher's window shows while `games_running` games it
/// started run: it hides while any runs.
pub fn window_visible(games_running: usize) -> (res: bool)
    ensures
        res == (games_running == 0),
{
    games_running == 0
}

/// The projects whose path names another place than `path`.
pub open spec fn without_path(ps: Seq<Project>, path: Seq<char>) -> Seq<Project> {
    ps.filter(|q: Project| !same_path(q.path@, path))
}

proof fn lemma_without_path_step(ps: Seq<Project>, path: Seq<char>, i: int)
    requires
        0 <= i < ps.len(),
    ensures
        without_path(ps.take(i + 1), path) == if !same_path(ps[i].path@, path) {
            without_path(ps.take(i), path).push(ps[i])
        } else {
            without_path(ps.take(i), path)
        },
{
    reveal(Seq::filter);
    assert(ps.take(i + 1).drop_last() =~= ps.take(i));
}

/// Removing the projects at `path` leaves none there, and keeps the paths
/// distinct where they were.
proof fn lemma_without_path_props(ps: Seq<Project>, path: Seq<char>)
    ensures
        !has_path(without_path(ps, path), path),
        paths_distinct(ps) ==> paths_distinct(without_path(ps, path)),
        forall|q: Project| #[trigger] without_path(ps, path).contains(q) ==> ps.contains(q),
    decreases ps.len(),
{
    reveal(Seq::filter);
    if ps.len() > 0 {
        let rest = ps.drop_last();
        lemma_without_path_props(rest, path);
        let w = without_path(rest, path);
        assert(without_path(ps, path) == if !same_path(ps.last().path@, path) {
            w.push(ps.last())
        } else {
            w
        });
        if !same_path(ps.last().path@, path) {
            let w2 = w.push(ps.last());
            assert forall|q: Project| #[trigger] w2.contains(q) implies ps.contains(q) by {
                let j = choose|j: int| 0 <= j < w2.len() && w2[j] == q;
                if j < w.len() {
                    assert(w.contains(q));
                    assert(rest.contains(q));
                    let k = choose|k: int| 0 <= k < rest.len() && rest[k] == q;
                    assert(ps[k] == q);
                } else {
                    assert(ps[ps.len() - 1] == q);
                }
            }
            if paths_distinct(ps) {
                assert(paths_distinct(rest)) by {
                    assert forall|a: int, b: int| 0 <= a < b < rest.len() implies !same_path((#[trigger] rest[a]).path@, (#[trigger] rest[b]).path@) by {
                        assert(rest[a] == ps[a] && rest[b] == ps[b]);
                    }
                }
                assert forall|a: int, b: int| 0 <= a < b < w2.len() implies !same_path((#[trigger] w2[a]).path@, (#[trigger] w2[b]).path@) by {
                    if b == w2.len() - 1 {
                        assert(w.contains(w2[a]));
                        assert(rest.contains(w2[a]));
                        let k = choose|k: int| 0 <= k < rest.len() && rest[k] == w2[a];
                        assert(ps[k] == w2[a]);
                        assert(ps[ps.len() - 1] == w2[b]);
                    }
                }
            }
            assert forall|j: int| 0 <= j < w2.len() implies !same_path((#[trigger] w2[j]).path@, path) by {
                if j < w.len() {
                    assert(w2[j] == w[j]);
                }
            }
        } else {
            if paths_distinct(ps) {
                assert(paths_distinct(rest)) by {
                    assert forall|a: int, b: int| 0 <= a < b < rest.len() implies !same_path((#[trigger] rest[a]).path@, (#[trigger] rest[b]).path@) by {
                        assert(rest[a] == ps[a] && rest[b] == ps[b]);
                    }
                }
            }
        }
    } else {
        assert(without_path(ps, path) =~= ps);
    }
}

proof fn lemma_appended_distinct(ps: Seq<Project>, old: Seq<Project>, name: Seq<char>, path: Seq<char>)
    requires
        appended(ps, old, name, path),
        !has_path(old, path),
        paths_distinct(old),
    ensures
        paths_distinct(ps),
        has_path(ps, path),
{
    assert forall|a: int, b: int| 0 <= a < b < ps.len() implies !same_path((#[trigger] ps[a]).path@, (#[trigger] ps[b]).path@) by {
        assert(ps[a] == old[a]);
        if b < old.len() {
            assert(ps[b] == old[b]);
        }
    }
    assert(ps[ps.len() - 1].path@ == path);
}

proof fn lemma_stamped_distinct(ps: Seq<Project>, path: Seq<char>, now: u64)
    requires
        paths_distinct(ps),
    ensures
        paths_distinct(stamped(ps, path, now)),
{
    let s = stamped(ps, path, now);
    assert forall|a: int, b: int| 0 <= a < b < s.len() implies !same_path((#[trigger] s[a]).path@, (#[trigger] s[b]).path@) by {
        assert(s[a].path == ps[a].path && s[b].path == ps[b].path);
    }
}

/// A successful launch at `now` of the game at `path` stamps the first
/// project at that path (under any spelling) with `now` as its last launch,
/// whatever it held before, and changes nothing else: every other project,
/// and the name and path of that one, stay as they were. Where no project
/// is at that path the history stays as it was.
pub proof fn law_launch_stamps_first_project(ps: Seq<Project>, path: Seq<char>, now: u64)
    ensures
        stamped(ps, path, now).len() == ps.len(),
        forall|i: int|
            0 <= i < ps.len() && same_path(ps[i].path@, path) && (forall|j: int|
                0 <= j < i ==> !same_path(#[trigger] ps[j].path@, path)) ==> {
                let q = #[trigger] stamped(ps, path, now)[i];
                &&& q.last_launched == Some(now)
                &&& q.name == ps[i].name
                &&& q.path == ps[i].path
                &&& forall|j: int| 0 <= j < ps.len() && j != i ==> #[trigger] stamped(ps, path, now)[j] == ps[j]
            },
        (forall|i: int| 0 <= i < ps.len() ==> !same_path(#[trigger] ps[i].path@, path)) ==> stamped(
            ps,
            path,
            now,
        ) == ps,
{
    assert forall|i: int|
        0 <= i < ps.len() && same_path(ps[i].path@, path) && (forall|j: int|
            0 <= j < i ==> !same_path(#[trigger] ps[j].path@, path)) implies {
        let q = #[trigger] stamped(ps, path, now)[i];
        &&& q.last_launched == Some(now)
        &&& q.name == ps[i].name
        &&& q.path == ps[i].path
        &&& forall|j: int| 0 <= j < ps.len() && j != i ==> #[trigger] stamped(ps, path, now)[j] == ps[j]
    } by {
        assert(has_path(ps, path));
        let c = choose|c: int|
            0 <= c < ps.len() && same_path((#[trigger] ps[c]).path@, path) && forall|j: int|
                0 <= j < c ==> !same_path((#[trigger] ps[j]).path@, path);
        assert(c == i) by {
            if c < i {
                assert(!same_path(ps[c].path@, path));
            } else if c > i {
                assert(!same_path(ps[i].path@, path));
            }
        }
        assert(first_with_path(ps, path) == Some(i));
    }
    if has_path(ps, path) {
        let k = choose|k: int| 0 <= k < ps.len() && same_path((#[trigger] ps[k]).path@, path);
        lemma_first_path_exists(ps, path, k);
    }
}

/// Where some project is at `path`, there is a first one.
proof fn lemma_first_path_exists(ps: Seq<Project>, path: Seq<char>, k: int)
    requires
        0 <= k < ps.len(),
        same_path(ps[k].path@, path),
    ensures
        exists|i: int|
            0 <= i < ps.len() && same_path((#[trigger] ps[i]).path@, path) && forall|j: int|
                0 <= j < i ==> !same_path((#[trigger] ps[j]).path@, path),
    decreases k,
{
    if exists|j: int| 0 <= j < k && same_path((#[trigger] ps[j]).path@, path) {
        let j = choose|j: int| 0 <= j < k && same_path((#[trigger] ps[j]).path@, path);
        lemma_first_path_exists(ps, path, j);
    } else {
        assert(forall|j: int| 0 <= j < k ==> !same_path((#[trigger] ps[j]).path@, path));
    }
}

/// A project deleted from the history is not listed afterwards: no card
/// of the list drawn from what remains has its path.
pub proof fn law_deleted_project_not_listed(
    ps: Seq<Project>,
    path: Seq<char>,
    order: Seq<usize>,
    cards: Seq<ProjectCardView>,
    statuses: Map<PathKey, ProjectStatus>,
)
    requires
        is_recent_order(without_path(ps, path), order),
        cards_match(cards, without_path(ps, path), order, statuses),
    ensures
        forall|r: int| 0 <= r < cards.len() ==> !same_path((#[trigger] cards[r]).path@, path),
{
    lemma_without_path_props(ps, path);
    let rest = without_path(ps, path);
    assert forall|r: int| 0 <= r < cards.len() implies !same_path((#[trigger] cards[r]).path@, path) by {
        let i = order[r] as int;
        assert(0 <= i < rest.len());
        assert(cards[r].path == rest[i].path);
        assert(!same_path(rest[i].path@, path));
    }
}

/// Pressing the download button of a game keeps the noted downloads and
/// the jobs in flight in step: a job starts exactly when none of the game
/// was noted.
pub proof fn law_download_press_keeps_jobs(
    running: Set<Seq<char>>,
    jobs: Multiset<Seq<char>>,
    name: Seq<char>,
)
    requires
        jobs_match(running, jobs),
    ensures
        jobs_match(running.insert(name), jobs.add(download_started(running, name))),
{
    broadcast use vstd::multiset::group_multiset_axioms;

    assert forall|n: Seq<char>|
        #[trigger] jobs.add(download_started(running, name)).count(n) == if running.insert(
            name,
        ).contains(n) {
            1nat
        } else {
            0nat
        } by {
        assert(jobs.count(n) == if running.contains(n) {
            1nat
        } else {
            0nat
        });
    }
}

/// Taking in the result of a download keeps the noted downloads and the
/// jobs in flight in step.
pub proof fn law_download_finish_keeps_jobs(
    running: Set<Seq<char>>,
    jobs: Multiset<Seq<char>>,
    name: Seq<char>,
)
    requires
        jobs_match(running, jobs),
    ensures
        jobs_match(running.remove(name), jobs.remove(name)),
{
    broadcast use vstd::multiset::group_multiset_axioms;

    assert forall|n: Seq<char>|
        #[trigger] jobs.remove(name).count(n) == if running.remove(name).contains(n) {
            1nat
        } else {
            0nat
        } by {
        assert(jobs.count(n) == if running.contains(n) {
            1nat
        } else {
            0nat
        });
    }
}

/// Whatever buttons are pressed and results come back, in any order, the
/// downloads noted as running are exactly the games with a job in flight,
/// and no game ever has two download jobs in flight.
pub proof fn law_one_download_per_name(steps: Seq<DownloadStep>)
    ensures
        jobs_match(replay_downloads(steps).0, replay_downloads(steps).1),
        forall|n: Seq<char>| #[trigger] replay_downloads(steps).1.count(n) <= 1,
    decreases steps.len(),
{
    broadcast use vstd::multiset::group_multiset_axioms;

    if steps.len() > 0 {
        law_one_download_per_name(steps.drop_last());
        let (running, jobs) = replay_downloads(steps.drop_last());
        match steps.last() {
            DownloadStep::Press(n) => law_download_press_keeps_jobs(running, jobs, n),
            DownloadStep::Finish(n) => law_download_finish_keeps_jobs(running, jobs, n),
        }
    }
    let (running, jobs) = replay_downloads(steps);
    assert forall|n: Seq<char>| #[trigger] jobs.count(n) <= 1 by {
        assert(jobs.count(n) == if running.contains(n) {
            1nat
        } else {
            0nat
        });
    }
}

impl LauncherState {
    /// The state at start: the loaded history and tab, no status known, no
    /// download running.
    pub fn new(config: LauncherConfig, active_tab: ActiveTab) -> (res: LauncherState)
        ensures
            res.config == config,
            res.active_tab == active_tab,
            res.statuses@ == Map::<PathKey, ProjectStatus>::empty(),
            res.downloads@ == Set::<Seq<char>>::empty(),
    {
        LauncherState { config, statuses: StatusTable::new(), active_tab, downloads: ActiveDownloads::new() }
    }

    /// Records the status of each project in the history once its folder
    /// has been looked at: `valid[i]` tells whether the `i`-th folder holds
    /// a game. The list is then drawn.
    pub fn init_statuses(&mut self, valid: &Vec<bool>) -> (effects: Vec<Effect>)
        requires
            valid@.len() == old(self).config.projects@.len(),
        ensures
            final(self).statuses@ == with_initial_statuses(
                old(self).statuses@,
                old(self).config.projects@,
                valid@,
            ),
            final(self).config == old(self).config,
            final(self).active_tab == old(self).active_tab,
            final(self).downloads == old(self).downloads,
            effects@ == seq![Effect::Refresh],
    {
        let ghost m0 = self.statuses@;
        let n = self.config.projects.len();
        let mut i: usize = 0;
        while i < n
            invariant
                n == self.config.projects@.len(),
                n == valid@.len(),
                i <= n,
                self.config == old(self).config,
                self.active_tab == old(self).active_tab,
                self.downloads == old(self).downloads,
                self.statuses@ == with_initial_statuses(
                    m0,
                    self.config.projects@.take(i as int),
                    valid@.take(i as int),
                ),
            decreases n - i,
        {
            let path = self.config.projects[i].path.clone();
            let status = initial_status_of(valid[i]);
            self.statuses.set(path, status);
            proof {
                let ps = self.config.projects@;
                assert(ps.take(i + 1).drop_last() =~= ps.take(i as int));
                assert(valid@.take(i + 1).drop_last() =~= valid@.take(i as int));
            }
            i = i + 1;
        }
        proof {
            assert(self.config.projects@.take(n as int) =~= self.config.projects@);
            assert(valid@.take(n as int) =~= valid@);
        }
        let mut effects = Vec::new();
        effects.push(Effect::Refresh);
        effects
    }

    /// Removes every project at the given path, under any spelling, from the
    /// history.
    fn drop_projects_at(&mut self, path: &str)
        ensures
            final(self).config.projects@ == without_path(old(self).config.projects@, path@),
            final(self).statuses == old(self).statuses,
            final(self).active_tab == old(self).active_tab,
            final(self).downloads == old(self).downloads,
    {
        let mut kept: Vec<Project> = Vec::new();
        let n = self.config.projects.len();
        let mut i: usize = 0;
        while i < n
            invariant
                n == self.config.projects@.len(),
                i <= n,
                self.config == old(self).config,
                self.statuses == old(self).statuses,
                self.active_tab == old(self).active_tab,
                self.downloads == old(self).downloads,
                kept@ == without_path(self.config.projects@.take(i as int), path@),
            decreases n - i,
        {
            proof {
                lemma_without_path_step(self.config.projects@, path@, i as int);
            }
            if !is_same_path(self.config.projects[i].path.as_str(), path) {
                kept.push(self.config.projects[i].duplicate());
            }
            i = i + 1;
        }
        proof {
            assert(self.config.projects@.take(n as int) =~= self.config.projects@);
        }
        self.config.projects = kept;
    }

    /// Reacts to a pressed button.
    ///
    /// Choosing a folder asks the user for one. Launching asks for the game
    /// to be started (see [`LauncherState::finish_launch`]). Stopping stops
    /// the game and shows the project idle. Deleting stops the game, forgets
    /// the folder's status, removes every project at that path from the
    /// history and saves it. Switching tabs shows the tab and saves it as
    /// the tab to show next time. A link is opened; quitting closes the
    /// launcher. A download starts unless one of the same game runs, in
    /// which case nothing happens.
    pub fn press(&mut self, action: ButtonAction) -> (effects: Vec<Effect>)
        ensures
            match action {
                ButtonAction::SelectFolder => *final(self) == *old(self) && effects@ == seq![
                    Effect::PickFolder,
                ],
                ButtonAction::Launch(p) => *final(self) == *old(self) && effects@ == seq![
                    Effect::Launch(p),
                ],
                ButtonAction::Stop(p) => {
                    &&& final(self).statuses@ == old(self).statuses@.insert(path_key(p@), ProjectStatus::Idle)
                    &&& final(self).config == old(self).config
                    &&& final(self).active_tab == old(self).active_tab
                    &&& final(self).downloads == old(self).downloads
                    &&& effects@.len() == 2
                    &&& effects@[0] matches Effect::Kill(k) && k@ == p@
                    &&& effects@[1] is Refresh
                },
                ButtonAction::Delete(p) => {
                    &&& final(self).statuses@ == old(self).statuses@.remove(path_key(p@))
                    &&& final(self).config.projects@ == without_path(old(self).config.projects@, p@)
                    &&& !has_path(final(self).config.projects@, p@)
                    &&& (paths_distinct(old(self).config.projects@) ==> paths_distinct(
                        final(self).config.projects@,
                    ))
                    &&& final(self).active_tab == old(self).active_tab
                    &&& final(self).downloads == old(self).downloads
                    &&& effects@.len() == 3
                    &&& effects@[0] matches Effect::Kill(k) && k@ == p@
                    &&& effects@[1] is SaveConfig
                    &&& effects@[2] is Refresh
                },
                ButtonAction::SwitchTab(t) => {
                    &&& final(self).active_tab == t
                    &&& final(self).config == old(self).config
                    &&& final(self).statuses == old(self).statuses
                    &&& final(self).downloads == old(self).downloads
                    &&& effects@ == seq![Effect::Refresh, Effect::SaveUiConfig(UiConfig { active_tab: t })]
                },
                ButtonAction::OpenUrl(u) => *final(self) == *old(self) && effects@ == seq![
                    Effect::OpenUrl(u),
                ],
                ButtonAction::Quit => *final(self) == *old(self) && effects@ == seq![Effect::Exit],
                ButtonAction::Download { name, url } => {
                    &&& final(self).downloads@ == old(self).downloads@.insert(name@)
                    &&& started_jobs(effects@) == download_started(old(self).downloads@, name@)
                    &&& if old(self).downloads@.contains(name@) {
                    *final(self) == *old(self) && effects@.len() == 0
                } else {
                    &&& final(self).downloads@ == old(self).downloads@.insert(name@)
                    &&& final(self).config == old(self).config
                    &&& final(self).statuses == old(self).statuses
                    &&& final(self).active_tab == old(self).active_tab
                    &&& effects@ == seq![Effect::StartDownload { name, url }, Effect::Refresh]
                }
                },
            },
    {
        let mut effects: Vec<Effect> = Vec::new();
        match action {
            ButtonAction::SelectFolder => {
                effects.push(Effect::PickFolder);
            },
            ButtonAction::Launch(p) => {
                effects.push(Effect::Launch(p));
            },
            ButtonAction::Stop(p) => {
                let key = p.clone();
                effects.push(Effect::Kill(p));
                self.statuses.set(key, ProjectStatus::Idle);
                effects.push(Effect::Refresh);
            },
            ButtonAction::Delete(p) => {
                self.statuses.remove(p.as_str());
                self.drop_projects_at(p.as_str());
                proof {
                    lemma_without_path_props(old(self).config.projects@, p@);
                }
                effects.push(Effect::Kill(p));
                effects.push(Effect::SaveConfig);
                effects.push(Effect::Refresh);
            },
            ButtonAction::SwitchTab(t) => {
                self.active_tab = t;
                effects.push(Effect::Refresh);
                effects.push(Effect::SaveUiConfig(UiConfig { active_tab: t }));
            },
            ButtonAction::OpenUrl(u) => {
                effects.push(Effect::OpenUrl(u));
            },
            ButtonAction::Quit => {
                effects.push(Effect::Exit);
            },
            ButtonAction::Download { name, url } => {
                if !self.downloads.contains(name.as_str()) {
                    let ghost nm = name@;
                    self.downloads.insert(name.clone());
                    effects.push(Effect::StartDownload { name, url });
                    effects.push(Effect::Refresh);
                    proof {
                        let e = effects@;
                        let e1 = e.drop_last();
                        assert(e1.drop_last() =~= Seq::<Effect>::empty());
                        assert(started_jobs(e1.drop_last()) == Multiset::<Seq<char>>::empty());
                        assert(started_jobs(e1) == Multiset::<Seq<char>>::empty().insert(nm));
                        assert(started_jobs(e) == started_jobs(e1));
                        assert(Multiset::<Seq<char>>::empty().insert(nm) =~= Multiset::singleton(nm));
                    }
                } else {
                    proof {
                        assert(self.downloads@ =~= self.downloads@.insert(name@));
                    }
                }
            },
        }
        effects
    }

    /// Takes in how starting the game at `path` went. A game that runs is
    /// shown running, the first project with that path gets `now` as its
    /// last launch, and the history is saved; a game that could not be
    /// started is shown as failed. The list is then drawn.
    pub fn finish_launch(&mut self, path: String, outcome: LaunchOutcome) -> (effects: Vec<Effect>)
        ensures
            final(self).active_tab == old(self).active_tab,
            final(self).downloads == old(self).downloads,
            match outcome {
                LaunchOutcome::Started { now } => {
                    &&& final(self).statuses@ == old(self).statuses@.insert(path_key(path@), ProjectStatus::Running)
                    &&& final(self).config.projects@ == stamped(old(self).config.projects@, path@, now)
                    &&& effects@ == seq![Effect::SaveConfig, Effect::Refresh]
                },
                LaunchOutcome::Failed => {
                    &&& final(self).statuses@ == old(self).statuses@.insert(
                        path_key(path@),
                        ProjectStatus::FailedLaunch,
                    )
                    &&& final(self).config == old(self).config
                    &&& effects@ == seq![Effect::Refresh]
                },
            },
            paths_distinct(old(self).config.projects@) ==> paths_distinct(final(self).config.projects@),
    {
        let mut effects: Vec<Effect> = Vec::new();
        match outcome {
            LaunchOutcome::Started { now } => {
                match find_path(&self.config.projects, path.as_str()) {
                    Some(i) => {
                        let old_p = &self.config.projects[i];
                        let p = Project {
                            name: old_p.name.clone(),
                            path: old_p.path.clone(),
                            last_launched: Some(now),
                        };
                        self.config.projects.set(i, p);
                    },
                    None => {},
                }
                proof {
                    if paths_distinct(old(self).config.projects@) {
                        lemma_stamped_distinct(old(self).config.projects@, path@, now);
                    }
                }
                self.statuses.set(path, ProjectStatus::Running);
                effects.push(Effect::SaveConfig);
                effects.push(Effect::Refresh);
            },
            LaunchOutcome::Failed => {
                self.statuses.set(path, ProjectStatus::FailedLaunch);
                effects.push(Effect::Refresh);
            },
        }
        effects
    }

    /// Adds the folder at `path` to the history where no project has that
    /// path yet, named after `file_name`; reports whether it did.
    fn add_project(&mut self, path: &str, file_name: Option<String>) -> (added: bool)
        ensures
            added == !has_path(old(self).config.projects@, path@),
            added ==> appended(
                final(self).config.projects@,
                old(self).config.projects@,
                name_for(file_name),
                path@,
            ),
            !added ==> final(self).config == old(self).config,
            paths_distinct(old(self).config.projects@) ==> paths_distinct(final(self).config.projects@),
            has_path(final(self).config.projects@, path@),
            final(self).statuses == old(self).statuses,
            final(self).active_tab == old(self).active_tab,
            final(self).downloads == old(self).downloads,
    {
        if contains_path(&self.config.projects, path) {
            return false;
        }
        let name = project_name(file_name);
        self.config.projects.push(Project::new(name, String::from_str(path)));
        proof {
            let ps = self.config.projects@;
            assert(ps.drop_last() =~= old(self).config.projects@);
            assert(ps[ps.len() - 1].path@ == path@);
            if paths_distinct(old(self).config.projects@) {
                lemma_appended_distinct(ps, old(self).config.projects@, name_for(file_name), path@);
            }
        }
        true
    }

    /// Takes in a folder the user picked. A folder already in the history is
    /// ignored. Otherwise it is added, named after the last part of its path
    /// (`file_name`), the history is saved, the folder is shown idle, or
    /// invalid where `valid` says it holds no game, and the list is drawn.
    pub fn add_picked_folder(&mut self, path: String, file_name: Option<String>, valid: bool) -> (effects: Vec<Effect>)
        ensures
            final(self).active_tab == old(self).active_tab,
            final(self).downloads == old(self).downloads,
            if has_path(old(self).config.projects@, path@) {
                *final(self) == *old(self) && effects@.len() == 0
            } else {
                &&& appended(
                    final(self).config.projects@,
                    old(self).config.projects@,
                    name_for(file_name),
                    path@,
                )
                &&& final(self).statuses@ == old(self).statuses@.insert(path_key(path@), initial_status(valid))
                &&& effects@ == seq![Effect::SaveConfig, Effect::Refresh]
            },
            paths_distinct(old(self).config.projects@) ==> paths_distinct(final(self).config.projects@),
    {
        let mut effects: Vec<Effect> = Vec::new();
        if !self.add_project(path.as_str(), file_name) {
            return effects;
        }
        effects.push(Effect::SaveConfig);
        self.statuses.set(path, initial_status_of(valid));
        effects.push(Effect::Refresh);
        effects
    }

    /// Takes in the folder given on the command line. A folder that holds no
    /// game (`valid` is false) changes nothing and is not launched.
    /// Otherwise it is added to the history where no project has that path
    /// yet, named after the last part of its path, and is to be launched
    /// (see [`LauncherState::finish_launch`]).
    pub fn adopt_folder(&mut self, path: &str, file_name: Option<String>, valid: bool) -> (launch: bool)
        ensures
            launch == valid,
            if !valid || has_path(old(self).config.projects@, path@) {
                *final(self) == *old(self)
            } else {
                &&& appended(
                    final(self).config.projects@,
                    old(self).config.projects@,
                    name_for(file_name),
                    path@,
                )
                &&& final(self).statuses == old(self).statuses
                &&& final(self).active_tab == old(self).active_tab
                &&& final(self).downloads == old(self).downloads
            },
            valid ==> has_path(final(self).config.projects@, path@),
            paths_distinct(old(self).config.projects@) ==> paths_distinct(final(self).config.projects@),
    {
        if !valid {
            return false;
        }
        self.add_project(path, file_name);
        true
    }

    /// Takes in how the download of the store game `name` went. The download
    /// no longer runs. Where it succeeded into the folder `path`, the folder
    /// is added to the history under the game's name unless a project has
    /// that path already (saving the history where it is added), and shown
    /// idle, or invalid where `valid` says it holds no game. The list is then
    /// drawn.
    pub fn finish_download(&mut self, name: String, outcome: Result<String, String>, valid: bool) -> (effects: Vec<Effect>)
        ensures
            final(self).downloads@ == old(self).downloads@.remove(name@),
            started_jobs(effects@) =~= Multiset::empty(),
            final(self).active_tab == old(self).active_tab,
            match outcome {
                Ok(path) => {
                    &&& final(self).statuses@ == old(self).statuses@.insert(path_key(path@), initial_status(valid))
                    &&& if has_path(old(self).config.projects@, path@) {
                        &&& final(self).config == old(self).config
                        &&& effects@ == seq![Effect::Refresh]
                    } else {
                        &&& appended(
                            final(self).config.projects@,
                            old(self).config.projects@,
                            name@,
                            path@,
                        )
                        &&& effects@ == seq![Effect::SaveConfig, Effect::Refresh]
                    }
                },
                Err(_) => {
                    &&& final(self).statuses == old(self).statuses
                    &&& final(self).config == old(self).config
                    &&& effects@ == seq![Effect::Refresh]
                },
            },
            paths_distinct(old(self).config.projects@) ==> paths_distinct(final(self).config.projects@),
    {
        let mut effects: Vec<Effect> = Vec::new();
        self.downloads.remove(name.as_str());
        match outcome {
            Ok(path) => {
                if self.add_project(path.as_str(), Some(name)) {
                    effects.push(Effect::SaveConfig);
                }
                self.statuses.set(path, initial_status_of(valid));
            },
            Err(_) => {},
        }
        effects.push(Effect::Refresh);
        proof {
            reveal_with_fuel(started_jobs, 3);
        }
        effects
    }

    /// Takes in the games that have ended since the last look, in order,
    /// each as [`LauncherState::record_exit`] does. The list is drawn again
    /// where any has ended.
    pub fn record_exits(&mut self, ended: Vec<(String, ExitOutcome)>) -> (effects: Vec<Effect>)
        ensures
            final(self).statuses@ == exits_applied(old(self).statuses@, ended@),
            final(self).config == old(self).config,
            final(self).active_tab == old(self).active_tab,
            final(self).downloads == old(self).downloads,
            effects@ == if ended@.len() > 0 {
                seq![Effect::Refresh]
            } else {
                Seq::<Effect>::empty()
            },
    {
        let ghost m0 = self.statuses@;
        let n = ended.len();
        let mut i: usize = 0;
        while i < n
            invariant
                n == ended@.len(),
                i <= n,
                self.config == old(self).config,
                self.active_tab == old(self).active_tab,
                self.downloads == old(self).downloads,
                self.statuses@ == exits_applied(m0, ended@.take(i as int)),
            decreases n - i,
        {
            let path = ended[i].0.clone();
            let outcome = match &ended[i].1 {
                ExitOutcome::Succeeded => ExitOutcome::Succeeded,
                ExitOutcome::Failed => ExitOutcome::Failed,
                ExitOutcome::Unknown => ExitOutcome::Unknown,
            };
            self.record_exit(path, outcome);
            proof {
                assert(ended@.take(i + 1).drop_last() =~= ended@.take(i as int));
            }
            i = i + 1;
        }
        proof {
            assert(ended@.take(n as int) =~= ended@);
        }
        let mut effects = Vec::new();
        if n > 0 {
            effects.push(Effect::Refresh);
        }
        effects
    }

    /// Takes in that the game started from `path` has ended: it is shown
    /// failed where it exited with a failure, else idle.
    pub fn record_exit(&mut self, path: String, outcome: ExitOutcome)
        ensures
            final(self).statuses@ == old(self).statuses@.insert(path_key(path@), status_after_exit(outcome)),
            final(self).config == old(self).config,
            final(self).active_tab == old(self).active_tab,
            final(self).downloads == old(self).downloads,
    {
        let status = match outcome {
            ExitOutcome::Failed => ProjectStatus::FailedLaunch,
            _ => ProjectStatus::Idle,
        };
        self.statuses.set(path, status);
    }
}

} // verus!
