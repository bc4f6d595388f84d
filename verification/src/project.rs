//! The projects the launcher knows, how a folder is recognised as a game,
//! and how a recognised game is started.

use vstd::prelude::*;
use crate::paths::{same_path, is_same_path};
use crate::readme::{chars_of, push_char};

verus! {

/// A game folder in the launcher's history.
#[derive(Clone, Debug, PartialEq, Eq)]
pub struct Project {
    pub name: String,
    pub path: String,
    /// Seconds since the Unix epoch at the last launch, if any.
    pub last_launched: Option<u64>,
}

impl Project {
    /// A project that was never launched.
    pub fn new(name: String, path: String) -> (res: Project)
        ensures
            res.name == name,
            res.path == path,
            res.last_launched is None,
    {
        Project { name, path, last_launched: None }
    }

    /// A copy of this project.
    pub fn duplicate(&self) -> (res: Project)
        ensures
            res == *self,
    {
        Project { name: self.name.clone(), path: self.path.clone(), last_launched: self.last_launched }
    }
}

/// The launcher's history of game folders.
#[derive(Clone, Debug, PartialEq, Eq)]
pub struct LauncherConfig {
    pub projects: Vec<Project>,
}

impl Default for LauncherConfig {
    fn default() -> (res: LauncherConfig)
        ensures
            res.projects@ == Seq::<Project>::empty(),
    {
        LauncherConfig { projects: Vec::new() }
    }
}

/// Whether some project has the given path, under any spelling.
pub open spec fn has_path(ps: Seq<Project>, path: Seq<char>) -> bool {
    exists|i: int| 0 <= i < ps.len() && same_path((#[trigger] ps[i]).path@, path)
}

/// No two projects name the same path.
pub open spec fn paths_distinct(ps: Seq<Project>) -> bool {
    forall|i: int, j: int|
        0 <= i < j < ps.len() ==> !same_path((#[trigger] ps[i]).path@, (#[trigger] ps[j]).path@)
}

/// Whether some project in the history has the given path, compared
/// component by component.
pub fn contains_path(projects: &Vec<Project>, path: &str) -> (res: bool)
    ensures
        res == has_path(projects@, path@),
{
    let mut i: usize = 0;
    while i < projects.len()
        invariant
            i <= projects.len(),
            forall|k: int| 0 <= k < i ==> !same_path((#[trigger] projects@[k]).path@, path@),
        decreases projects.len() - i,
    {
        if is_same_path(projects[i].path.as_str(), path) {
            assert(same_path(projects@[i as int].path@, path@));
            return true;
        }
        i = i + 1;
    }
    false
}

/// The position of the first project with the given path.
pub open spec fn first_with_path(ps: Seq<Project>, path: Seq<char>) -> Option<int> {
    if has_path(ps, path) {
        Some(
            choose|i: int|
                0 <= i < ps.len() && same_path((#[trigger] ps[i]).path@, path) && forall|j: int|
                    0 <= j < i ==> !same_path((#[trigger] ps[j]).path@, path),
        )
    } else {
        None
    }
}

/// The position of the first project with the given path, if any.
pub fn find_path(projects: &Vec<Project>, path: &str) -> (res: Option<usize>)
    ensures
        match res {
            Some(i) => i < projects@.len() && same_path(projects@[i as int].path@, path@)
                && first_with_path(projects@, path@) == Some(i as int),
            None => first_with_path(projects@, path@) is None,
        },
{
    let mut i: usize = 0;
    while i < projects.len()
        invariant
            i <= projects.len(),
            forall|k: int| 0 <= k < i ==> !same_path((#[trigger] projects@[k]).path@, path@),
        decreases projects.len() - i,
    {
        if is_same_path(projects[i].path.as_str(), path) {
            let ghost ps = projects@;
            assert(same_path(ps[i as int].path@, path@));
            assert(has_path(ps, path@));
            let ghost c = choose|c: int|
                0 <= c < ps.len() && same_path((#[trigger] ps[c]).path@, path@) && forall|j: int|
                    0 <= j < c ==> !same_path((#[trigger] ps[j]).path@, path@);
            assert(0 <= c < ps.len() && same_path(ps[c].path@, path@) && forall|j: int|
                0 <= j < c ==> !same_path((#[trigger] ps[j]).path@, path@));
            assert(c == i) by {
                if c < i {
                    assert(!same_path(ps[c].path@, path@));
                } else if c > i {
                    assert(!same_path(ps[i as int].path@, path@));
                }
            }
            return Some(i);
        }
        i = i + 1;
    }
    None
}

/// What a folder holds, as far as starting a game goes.
#[derive(Clone, Debug, PartialEq, Eq)]
pub enum ProjectType {
    /// A Cargo project, started with `cargo run --release`.
    Cargo,
    /// A folder with a program in it, started directly.
    Executable(String),
    /// Neither.
    Invalid,
}

impl ProjectType {
    pub open spec fn spec_is_invalid(&self) -> bool {
        self is Invalid
    }

    /// Whether the folder holds no game.
    #[verifier::when_used_as_spec(spec_is_invalid)]
    pub fn is_invalid(&self) -> (res: bool)
        ensures
            res == self.spec_is_invalid(),
    {
        match self {
            ProjectType::Invalid => true,
            _ => false,
        }
    }
}

/// What the launcher shows for a project.
#[derive(Clone, Copy, Debug, PartialEq, Eq, Structural)]
pub enum ProjectStatus {
    Idle,
    Running,
    FailedLaunch,
    Invalid,
}

/// The status a project gets when the launcher learns of its folder:
/// `Invalid` where the folder holds no game, else `Idle`.
pub open spec fn initial_status(valid: bool) -> ProjectStatus {
    if valid {
        ProjectStatus::Idle
    } else {
        ProjectStatus::Invalid
    }
}

pub fn initial_status_of(valid: bool) -> (res: ProjectStatus)
    ensures
        res == initial_status(valid),
{
    if valid {
        ProjectStatus::Idle
    } else {
        ProjectStatus::Invalid
    }
}

/// One entry of a folder.
#[derive(Clone, Debug, PartialEq, Eq)]
pub struct FolderEntry {
    pub path: String,
    /// The entry is a regular file (links followed).
    pub is_file: bool,
    /// The Unix permission bits, where the file's metadata could be read.
    pub mode: Option<u32>,
    /// The extension of the file name, as [`file_extension`] gives it.
    pub extension: Option<String>,
}

/// The position of the last dot in a file name, or -1 where it has none.
pub open spec fn last_dot(name: Seq<char>) -> int
    decreases name.len(),
{
    if name.len() == 0 {
        -1
    } else if name.last() == '.' {
        name.len() - 1
    } else {
        last_dot(name.drop_last())
    }
}

/// The extension of a file name: the part after its last dot. A name
/// without a dot, one whose only dot is its first character (a hidden
/// file such as `.bashrc`), and `..` have none.
pub open spec fn extension_of(name: Seq<char>) -> Option<Seq<char>> {
    if name =~= seq!['.', '.'] || last_dot(name) <= 0 {
        None
    } else {
        Some(name.subrange(last_dot(name) + 1, name.len() as int))
    }
}

/// The extension of the file name `name`, where it has one.
pub fn file_extension(name: &str) -> (res: Option<String>)
    ensures
        match extension_of(name@) {
            Some(e) => res matches Some(r) && r@ == e,
            None => res is None,
        },
{
    let cs = chars_of(name);
    let n = cs.len();
    if n == 2 && cs[0] == '.' && cs[1] == '.' {
        assert(cs@ =~= seq!['.', '.']);
        return None;
    }
    let mut i: usize = n;
    assert(cs@.take(n as int) =~= cs@);
    while i > 0 && cs[i - 1] != '.'
        invariant
            n == cs.len(),
            i <= n,
            last_dot(cs@) == last_dot(cs@.take(i as int)),
        decreases i,
    {
        assert(cs@.take(i as int).drop_last() =~= cs@.take(i - 1));
        i = i - 1;
    }
    if i <= 1 {
        return None;
    }
    let mut ext = String::new();
    let mut k: usize = i;
    while k < n
        invariant
            n == cs.len(),
            i <= k <= n,
            ext@ == cs@.subrange(i as int, k as int),
        decreases n - k,
    {
        push_char(&mut ext, cs[k]);
        assert(cs@.subrange(i as int, k + 1) =~= cs@.subrange(i as int, k as int).push(cs@[k as int]));
        k = k + 1;
    }
    Some(ext)
}

/// What the file system says of a folder that may hold a game.
#[derive(Clone, Debug, PartialEq, Eq)]
pub struct FolderProbe {
    pub exists: bool,
    pub is_dir: bool,
    /// The folder holds a file named `Cargo.toml`.
    pub has_cargo_toml: bool,
    /// The readable entries of the folder, in the order the system lists them.
    pub entries: Vec<FolderEntry>,
    /// The system is a Unix one.
    pub unix: bool,
}

/// Whether the character `c` lower-cases to the lower-case character `w`
/// as far as ASCII goes: it is `w`, or `w` is an ASCII letter and `c` is
/// its upper-case form.
pub open spec fn folds_to(c: char, w: char) -> bool {
    c == w || ('a' <= w && w <= 'z' && (c as u32) + 32 == (w as u32))
}

/// Whether `s`, lower-cased, is the lower-case ASCII word `word`. (No
/// character other than an ASCII letter lower-cases to an ASCII letter other
/// than `i` and `k`, which the words used here do not hold.)
pub open spec fn lowercases_to(s: Seq<char>, word: Seq<char>) -> bool {
    s.len() == word.len() && forall|i: int| 0 <= i < s.len() ==> folds_to(#[trigger] s[i], word[i])
}

fn folds_to_char(c: char, w: char) -> (res: bool)
    ensures
        res == folds_to(c, w),
{
    c == w || ('a' <= w && w <= 'z' && (c as u32) + 32 == (w as u32))
}

/// Whether `s`, lower-cased, is `word`.
fn lowercase_is(s: &str, word: &str) -> (res: bool)
    ensures
        res == lowercases_to(s@, word@),
{
    let n = s.unicode_len();
    let m = word.unicode_len();
    if n != m {
        return false;
    }
    let sc = crate::readme::chars_of(s);
    let wc = crate::readme::chars_of(word);
    let mut i: usize = 0;
    while i < n
        invariant
            n == sc@.len() == wc@.len(),
            sc@ == s@,
            wc@ == word@,
            i <= n,
            forall|k: int| 0 <= k < i ==> folds_to(#[trigger] sc@[k], wc@[k]),
        decreases n - i,
    {
        if !folds_to_char(sc[i], wc[i]) {
            return false;
        }
        i = i + 1;
    }
    true
}

/// Extensions of files that are never taken for a game even when they may
/// be executed: shell and Python scripts, JSON, TOML, text and Markdown.
pub open spec fn is_script_extension(ext: Seq<char>) -> bool {
    ||| lowercases_to(ext, "sh"@)
    ||| lowercases_to(ext, "json"@)
    ||| lowercases_to(ext, "toml"@)
    ||| lowercases_to(ext, "txt"@)
    ||| lowercases_to(ext, "md"@)
    ||| lowercases_to(ext, "py"@)
}

/// Whether a folder entry is taken for the game's program: on Unix, a file
/// that someone may execute and that is not a script or a data file; on
/// other systems, a file whose extension is `exe`.
pub open spec fn is_program(e: FolderEntry, unix: bool) -> bool {
    if unix {
        &&& e.is_file
        &&& e.mode is Some
        &&& e.mode.unwrap() & 0o111u32 != 0
        &&& !(e.extension is Some && is_script_extension(e.extension.unwrap()@))
    } else {
        &&& e.is_file
        &&& e.extension is Some
        &&& lowercases_to(e.extension.unwrap()@, "exe"@)
    }
}

/// The position of the first program among the entries.
pub open spec fn first_program(entries: Seq<FolderEntry>, unix: bool) -> Option<int> {
    if exists|i: int| 0 <= i < entries.len() && is_program(#[trigger] entries[i], unix) {
        Some(
            choose|i: int|
                0 <= i < entries.len() && is_program(#[trigger] entries[i], unix) && forall|j: int|
                    0 <= j < i ==> !is_program(#[trigger] entries[j], unix),
        )
    } else {
        None
    }
}

/// What a probed folder holds: nothing where it is not an existing folder;
/// a Cargo project where it holds `Cargo.toml`; else the first program
/// among its entries, if any.
pub open spec fn spec_project_type(probe: FolderProbe) -> ProjectType {
    if !probe.exists || !probe.is_dir {
        ProjectType::Invalid
    } else if probe.has_cargo_toml {
        ProjectType::Cargo
    } else {
        match first_program(probe.entries@, probe.unix) {
            Some(i) => ProjectType::Executable(probe.entries@[i].path),
            None => ProjectType::Invalid,
        }
    }
}

/// A regular file whose extension is `exe`, in any mix of cases.
pub open spec fn named_exe(e: FolderEntry) -> bool {
    &&& e.is_file
    &&& e.extension matches Some(x) && x@.len() == 3
        && (x@[0] == 'e' || x@[0] == 'E')
        && (x@[1] == 'x' || x@[1] == 'X')
        && (x@[2] == 'e' || x@[2] == 'E')
}

proof fn lemma_folds(c: char, lower: char, upper: char)
    requires
        'a' <= lower <= 'z',
        (upper as u32) + 32 == (lower as u32),
    ensures
        folds_to(c, lower) <==> (c == lower || c == upper),
{
    if (c as u32) + 32 == (lower as u32) {
        assert(c as u32 == upper as u32);
        assert(c == upper);
    }
}

proof fn lemma_program_outside_unix(e: FolderEntry)
    ensures
        is_program(e, false) <==> named_exe(e),
{
    reveal_strlit("exe");
    let w = "exe"@;
    assert(w.len() == 3 && w[0] == 'e' && w[1] == 'x' && w[2] == 'e');
    if let Some(x) = e.extension {
        let s = x@;
        if s.len() == 3 {
            lemma_folds(s[0], 'e', 'E');
            lemma_folds(s[1], 'x', 'X');
            lemma_folds(s[2], 'e', 'E');
            if folds_to(s[0], w[0]) && folds_to(s[1], w[1]) && folds_to(s[2], w[2]) {
                assert forall|i: int| 0 <= i < s.len() implies folds_to(#[trigger] s[i], w[i]) by {
                    if i == 0 {
                    } else if i == 1 {
                    } else {
                    }
                }
            }
            if lowercases_to(s, w) {
                assert(folds_to(s[0], w[0]) && folds_to(s[1], w[1]) && folds_to(s[2], w[2]));
            }
        }
    }
}

/// On a system other than Unix, the program taken for a game is the first
/// entry that is a file with the extension `exe` (in any case): a file with
/// any other extension is never taken, and a folder with no such file,
/// and no `Cargo.toml`, holds no game.
pub proof fn law_program_outside_unix_is_exe(probe: FolderProbe)
    requires
        !probe.unix,
        probe.exists,
        probe.is_dir,
        !probe.has_cargo_toml,
    ensures
        match spec_project_type(probe) {
            ProjectType::Executable(p) => exists|i: int|
                0 <= i < probe.entries@.len() && probe.entries@[i].path == p && named_exe(
                    #[trigger] probe.entries@[i],
                ) && forall|j: int| 0 <= j < i ==> !named_exe(#[trigger] probe.entries@[j]),
            ProjectType::Cargo => false,
            ProjectType::Invalid => forall|i: int|
                0 <= i < probe.entries@.len() ==> !named_exe(#[trigger] probe.entries@[i]),
        },
{
    let es = probe.entries@;
    if exists|k: int| 0 <= k < es.len() && is_program(#[trigger] es[k], false) {
        let k = choose|k: int| 0 <= k < es.len() && is_program(#[trigger] es[k], false);
        lemma_first_program_exists(es, false, k);
        let c = choose|i: int|
            0 <= i < es.len() && is_program(#[trigger] es[i], false) && forall|j: int|
                0 <= j < i ==> !is_program(#[trigger] es[j], false);
        assert(first_program(es, false) == Some(c));
        lemma_program_outside_unix(es[c]);
        assert forall|j: int| 0 <= j < c implies !named_exe(#[trigger] es[j]) by {
            lemma_program_outside_unix(es[j]);
        }
    } else {
        assert forall|i: int| 0 <= i < es.len() implies !named_exe(#[trigger] es[i]) by {
            lemma_program_outside_unix(es[i]);
        }
    }
}

/// On Unix, the program taken for a game is the first entry that is a
/// file someone may execute and whose extension is none of `sh`, `json`,
/// `toml`, `txt`, `md` and `py` in any case; a folder with no such file,
/// and no `Cargo.toml`, holds no game.
pub proof fn law_program_on_unix(probe: FolderProbe)
    requires
        probe.unix,
        probe.exists,
        probe.is_dir,
        !probe.has_cargo_toml,
    ensures
        match spec_project_type(probe) {
            ProjectType::Executable(p) => exists|i: int|
                0 <= i < probe.entries@.len() && probe.entries@[i].path == p && unix_program(
                    #[trigger] probe.entries@[i],
                ) && forall|j: int| 0 <= j < i ==> !unix_program(#[trigger] probe.entries@[j]),
            ProjectType::Cargo => false,
            ProjectType::Invalid => forall|i: int|
                0 <= i < probe.entries@.len() ==> !unix_program(#[trigger] probe.entries@[i]),
        },
{
    let es = probe.entries@;
    assert forall|i: int| 0 <= i < es.len() implies (is_program(#[trigger] es[i], true)
        <==> unix_program(es[i])) by {
        reveal_strlit("sh");
        reveal_strlit("json");
        reveal_strlit("toml");
        reveal_strlit("txt");
        reveal_strlit("md");
        reveal_strlit("py");
    }
    if exists|k: int| 0 <= k < es.len() && is_program(#[trigger] es[k], true) {
        let k = choose|k: int| 0 <= k < es.len() && is_program(#[trigger] es[k], true);
        lemma_first_program_exists(es, true, k);
        let c = choose|i: int|
            0 <= i < es.len() && is_program(#[trigger] es[i], true) && forall|j: int|
                0 <= j < i ==> !is_program(#[trigger] es[j], true);
        assert(first_program(es, true) == Some(c));
        assert(unix_program(es[c]));
        assert forall|j: int| 0 <= j < c implies !unix_program(#[trigger] es[j]) by {
            assert(!is_program(es[j], true));
        }
    }
}

/// A regular file that someone may execute, with no extension or one that
/// is none of `sh`, `json`, `toml`, `txt`, `md` and `py` in any case.
pub open spec fn unix_program(e: FolderEntry) -> bool {
    &&& e.is_file
    &&& e.mode matches Some(m) && m & 0o111u32 != 0
    &&& e.extension matches Some(x) ==> {
        &&& !lowercases_to(x@, seq!['s', 'h'])
        &&& !lowercases_to(x@, seq!['j', 's', 'o', 'n'])
        &&& !lowercases_to(x@, seq!['t', 'o', 'm', 'l'])
        &&& !lowercases_to(x@, seq!['t', 'x', 't'])
        &&& !lowercases_to(x@, seq!['m', 'd'])
        &&& !lowercases_to(x@, seq!['p', 'y'])
    }
}

/// Where some entry is a program, there is a first one.
proof fn lemma_first_program_exists(es: Seq<FolderEntry>, unix: bool, k: int)
    requires
        0 <= k < es.len(),
        is_program(es[k], unix),
    ensures
        exists|i: int|
            0 <= i < es.len() && is_program(#[trigger] es[i], unix) && forall|j: int|
                0 <= j < i ==> !is_program(#[trigger] es[j], unix),
    decreases k,
{
    if exists|j: int| 0 <= j < k && is_program(#[trigger] es[j], unix) {
        let j = choose|j: int| 0 <= j < k && is_program(#[trigger] es[j], unix);
        lemma_first_program_exists(es, unix, j);
    } else {
        assert(forall|j: int| 0 <= j < k ==> !is_program(#[trigger] es[j], unix));
    }
}

fn is_script_ext(ext: &str) -> (res: bool)
    ensures
        res == is_script_extension(ext@),
{
    lowercase_is(ext, "sh") || lowercase_is(ext, "json") || lowercase_is(ext, "toml")
        || lowercase_is(ext, "txt") || lowercase_is(ext, "md") || lowercase_is(ext, "py")
}

fn entry_is_program(e: &FolderEntry, unix: bool) -> (res: bool)
    ensures
        res == is_program(*e, unix),
{
    if unix {
        if !e.is_file {
            return false;
        }
        match e.mode {
            Some(m) => {
                if m & 0o111u32 == 0 {
                    return false;
                }
            },
            None => {
                return false;
            },
        }
        match &e.extension {
            Some(ext) => !is_script_ext(ext.as_str()),
            None => true,
        }
    } else {
        if !e.is_file {
            return false;
        }
        match &e.extension {
            Some(ext) => lowercase_is(ext.as_str(), "exe"),
            None => false,
        }
    }
}

/// What the probed folder holds.
pub fn detect_project_type(probe: &FolderProbe) -> (res: ProjectType)
    ensures
        res == spec_project_type(*probe),
{
    if !probe.exists || !probe.is_dir {
        return ProjectType::Invalid;
    }
    if probe.has_cargo_toml {
        return ProjectType::Cargo;
    }
    let entries = &probe.entries;
    let mut i: usize = 0;
    while i < entries.len()
        invariant
            i <= entries.len(),
            entries@ == probe.entries@,
            probe.exists && probe.is_dir && !probe.has_cargo_toml,
            forall|k: int| 0 <= k < i ==> !is_program(#[trigger] entries@[k], probe.unix),
        decreases entries.len() - i,
    {
        if entry_is_program(&entries[i], probe.unix) {
            let ghost es = entries@;
            let ghost c = choose|c: int|
                0 <= c < es.len() && is_program(#[trigger] es[c], probe.unix) && forall|j: int|
                    0 <= j < c ==> !is_program(#[trigger] es[j], probe.unix);
            assert(is_program(es[i as int], probe.unix));
            assert(exists|x: int| 0 <= x < es.len() && is_program(#[trigger] es[x], probe.unix));
            assert(0 <= c < es.len() && is_program(es[c], probe.unix) && forall|j: int|
                0 <= j < c ==> !is_program(#[trigger] es[j], probe.unix));
            assert(c == i) by {
                if c < i {
                    assert(!is_program(es[c], probe.unix));
                } else if c > i {
                    assert(!is_program(es[i as int], probe.unix));
                }
            }
            assert(first_program(es, probe.unix) == Some(i as int));
            return ProjectType::Executable(entries[i].path.clone());
        }
        i = i + 1;
    }
    ProjectType::Invalid
}

/// A program to start, with its arguments and working folder.
#[derive(Clone, Debug, PartialEq, Eq)]
pub struct LaunchCommand {
    pub program: String,
    pub args: Vec<String>,
    pub current_dir: String,
}

/// The message given for a folder that holds no game.
pub open spec fn no_game_message() -> Seq<char> {
    "No valid Cargo.toml or executable found in this folder. Please verify this is a Bevy game folder."@
}

/// How a game in `folder` is started: a Cargo project with
/// `cargo run --release`, a program by itself, both in the folder; a folder
/// with no game is an error.
pub fn launch_command(kind: &ProjectType, folder: &str) -> (res: Result<LaunchCommand, String>)
    ensures
        match kind {
            ProjectType::Cargo => res matches Ok(c) && c.program@ == "cargo"@ && c.args@.len() == 2
                && c.args@[0]@ == "run"@ && c.args@[1]@ == "--release"@ && c.current_dir@
                == folder@,
            ProjectType::Executable(p) => res matches Ok(c) && c.program@ == p@ && c.args@.len()
                == 0 && c.current_dir@ == folder@,
            ProjectType::Invalid => res matches Err(m) && m@ == no_game_message(),
        },
{
    match kind {
        ProjectType::Cargo => {
            let mut args: Vec<String> = Vec::new();
            args.push(String::from_str("run"));
            args.push(String::from_str("--release"));
            Ok(
                LaunchCommand {
                    program: String::from_str("cargo"),
                    args,
                    current_dir: String::from_str(folder),
                },
            )
        },
        ProjectType::Executable(p) => Ok(
            LaunchCommand {
                program: p.clone(),
                args: Vec::new(),
                current_dir: String::from_str(folder),
            },
        ),
        ProjectType::Invalid => Err(
            String::from_str(
                "No valid Cargo.toml or executable found in this folder. Please verify this is a Bevy game folder.",
            ),
        ),
    }
}

/// The message for a game that could not be started: `reason` is what the
/// system said.
pub fn spawn_failure_message(kind: &ProjectType, reason: &str) -> (res: String)
    ensures
        match kind {
            ProjectType::Executable(p) => res@ == "Failed to spawn executable ("@ + p@ + "): "@
                + reason@,
            _ => res@ == "Failed to spawn cargo run: "@ + reason@,
        },
{
    match kind {
        ProjectType::Executable(p) => {
            let mut m = String::from_str("Failed to spawn executable (");
            m.append(p.as_str());
            m.append("): ");
            m.append(reason);
            m
        },
        _ => {
            let mut m = String::from_str("Failed to spawn cargo run: ");
            m.append(reason);
            m
        },
    }
}

/// The name a new project gets: the last part of its path, or
/// `Unknown Game` where the path has none.
pub fn project_name(file_name: Option<String>) -> (res: String)
    ensures
        match file_name {
            Some(n) => res == n,
            None => res@ == "Unknown Game"@,
        },
{
    match file_name {
        Some(n) => n,
        None => String::from_str("Unknown Game"),
    }
}

} // verus!
