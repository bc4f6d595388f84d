//! Installing a store game: where it goes, the order of its steps, and
//! how its failures read.

use vstd::prelude::*;
use crate::paths::{game_dir, get_game_download_path};
use crate::readme::push_char;

verus! {

/// The folder a store game is installed into, or the error where the home
/// directory is unknown.
pub fn download_destination(home: Option<&str>, name: &str) -> (res: Result<String, String>)
    ensures
        match home {
            Some(h) => res matches Ok(d) && d@ == game_dir(h@, name@),
            None => res matches Err(e) && e@ == "Could not determine home directory"@,
        },
{
    match get_game_download_path(home, name) {
        Some(d) => Ok(d),
        None => Err(String::from_str("Could not determine home directory")),
    }
}

/// The character of a decimal digit.
pub open spec fn digit_char(d: nat) -> char {
    if d == 0 {
        '0'
    } else if d == 1 {
        '1'
    } else if d == 2 {
        '2'
    } else if d == 3 {
        '3'
    } else if d == 4 {
        '4'
    } else if d == 5 {
        '5'
    } else if d == 6 {
        '6'
    } else if d == 7 {
        '7'
    } else if d == 8 {
        '8'
    } else {
        '9'
    }
}

/// The decimal digits of a natural number, most significant first.
pub open spec fn decimal(n: nat) -> Seq<char>
    decreases n,
{
    if n < 10 {
        seq![digit_char(n)]
    } else {
        decimal(n / 10).push(digit_char(n % 10))
    }
}

/// An integer in decimal, with a minus sign where it is negative.
pub open spec fn signed_decimal(n: int) -> Seq<char> {
    if n < 0 {
        seq!['-'] + decimal((-n) as nat)
    } else {
        decimal(n as nat)
    }
}

fn digit_of(d: u64) -> (res: char)
    requires
        d < 10,
    ensures
        res == digit_char(d as nat),
{
    if d == 0 {
        '0'
    } else if d == 1 {
        '1'
    } else if d == 2 {
        '2'
    } else if d == 3 {
        '3'
    } else if d == 4 {
        '4'
    } else if d == 5 {
        '5'
    } else if d == 6 {
        '6'
    } else if d == 7 {
        '7'
    } else if d == 8 {
        '8'
    } else {
        '9'
    }
}

fn push_decimal(out: &mut String, n: u64)
    ensures
        final(out)@ == old(out)@ + decimal(n as nat),
    decreases n,
{
    if n >= 10 {
        push_decimal(out, n / 10);
    }
    push_char(out, digit_of(n % 10));
    proof {
        if n >= 10 {
            assert(old(out)@ + decimal(n as nat) =~= old(out)@ + decimal((n / 10) as nat) + seq![
                digit_char((n % 10) as nat),
            ]);
        } else {
            assert(old(out)@ + decimal(n as nat) =~= old(out)@.push(digit_char(n as nat)));
        }
    }
}

/// How an exit code reads when printed for debugging: `Some(<code>)`, or
/// `None` where the process had no code.
pub open spec fn exit_code_text(code: Option<i32>) -> Seq<char> {
    match code {
        Some(c) => "Some("@ + signed_decimal(c as int) + ")"@,
        None => "None"@,
    }
}

/// An exit code as printed for debugging.
pub fn exit_code_string(code: Option<i32>) -> (res: String)
    ensures
        res@ == exit_code_text(code),
{
    match code {
        Some(c) => {
            let mut res = String::from_str("Some(");
            let wide = c as i64;
            if wide < 0 {
                push_char(&mut res, '-');
                push_decimal(&mut res, (-wide) as u64);
            } else {
                push_decimal(&mut res, wide as u64);
            }
            res.append(")");
            proof {
                reveal_strlit("Some(");
                if c < 0 {
                    assert(res@ =~= "Some("@ + signed_decimal(c as int) + ")"@);
                } else {
                    assert(res@ =~= "Some("@ + signed_decimal(c as int) + ")"@);
                }
            }
            res
        },
        None => String::from_str("None"),
    }
}

/// What went wrong while installing a store game.
#[derive(Clone, Debug, PartialEq, Eq)]
pub enum DownloadFailure {
    /// The folder that holds the games could not be created.
    CreateParent(String),
    /// The old copy of the game could not be removed.
    ClearOld(String),
    /// `git` could not be run.
    RunGit(String),
    /// `git clone` ended with a failure.
    GitExit(Option<i32>),
    /// `cargo` could not be run.
    RunCargo(String),
    /// `cargo build` ended with a failure.
    CargoExit(Option<i32>),
}

/// The message for a failed installation.
pub open spec fn failure_text(f: DownloadFailure) -> Seq<char> {
    match f {
        DownloadFailure::CreateParent(e) => "Failed to create parent directory: "@ + e@,
        DownloadFailure::ClearOld(e) => "Failed to clear existing folder: "@ + e@,
        DownloadFailure::RunGit(e) => "Failed to execute git clone: "@ + e@,
        DownloadFailure::GitExit(c) => "git clone failed with exit status: "@ + exit_code_text(c),
        DownloadFailure::RunCargo(e) => "Failed to execute cargo build: "@ + e@,
        DownloadFailure::CargoExit(c) => "cargo build failed with exit status: "@ + exit_code_text(c),
    }
}

/// The message for a failed installation.
pub fn download_error_message(f: &DownloadFailure) -> (res: String)
    ensures
        res@ == failure_text(*f),
{
    match f {
        DownloadFailure::CreateParent(e) => {
            let mut m = String::from_str("Failed to create parent directory: ");
            m.append(e.as_str());
            m
        },
        DownloadFailure::ClearOld(e) => {
            let mut m = String::from_str("Failed to clear existing folder: ");
            m.append(e.as_str());
            m
        },
        DownloadFailure::RunGit(e) => {
            let mut m = String::from_str("Failed to execute git clone: ");
            m.append(e.as_str());
            m
        },
        DownloadFailure::GitExit(c) => {
            let mut m = String::from_str("git clone failed with exit status: ");
            let code = exit_code_string(*c);
            m.append(code.as_str());
            m
        },
        DownloadFailure::RunCargo(e) => {
            let mut m = String::from_str("Failed to execute cargo build: ");
            m.append(e.as_str());
            m
        },
        DownloadFailure::CargoExit(c) => {
            let mut m = String::from_str("cargo build failed with exit status: ");
            let code = exit_code_string(*c);
            m.append(code.as_str());
            m
        },
    }
}

/// The steps of installing a store game. They run in this order, starting
/// with `CreateParent`, until one fails.
#[derive(Clone, Copy, Debug, PartialEq, Eq, Structural)]
pub enum InstallStep {
    /// Create the folder that holds the games.
    CreateParent,
    /// Remove an old copy of the game.
    ClearOld,
    /// Clone the game's repository with `git`.
    Clone,
    /// Build the game with `cargo build --release`.
    Build,
}

/// How a step went, as the world outside reports it.
#[derive(Clone, Debug, PartialEq, Eq)]
pub enum StepReport {
    /// The step had nothing to do: the destination has no parent folder, no
    /// old copy exists, or the clone holds no `Cargo.toml`.
    NothingToDo,
    /// The step was done.
    Succeeded,
    /// The step could not be done; the system's error text.
    Error(String),
    /// The command ran and ended with a failure, with its exit code if any.
    ExitFailure(Option<i32>),
}

/// What an installation does after a step.
#[derive(Clone, Debug, PartialEq, Eq)]
pub enum InstallNext {
    /// Run this step.
    Run(InstallStep),
    /// The game is installed.
    Installed,
    /// The installation failed with this message.
    Failed(String),
}

/// The reports a step can give: every step but the clone may have nothing
/// to do, and only the two commands have an exit code.
pub open spec fn report_fits(step: InstallStep, report: StepReport) -> bool {
    match report {
        StepReport::NothingToDo => step != InstallStep::Clone,
        StepReport::ExitFailure(_) => step == InstallStep::Clone || step == InstallStep::Build,
        _ => true,
    }
}

/// The step that follows `step`, if any.
pub open spec fn step_after(step: InstallStep) -> Option<InstallStep> {
    match step {
        InstallStep::CreateParent => Some(InstallStep::ClearOld),
        InstallStep::ClearOld => Some(InstallStep::Clone),
        InstallStep::Clone => Some(InstallStep::Build),
        InstallStep::Build => None,
    }
}

/// The failure a report of a step stands for, if it stands for one.
pub open spec fn step_failure(step: InstallStep, report: StepReport) -> Option<DownloadFailure> {
    match report {
        StepReport::Error(e) => Some(
            match step {
                InstallStep::CreateParent => DownloadFailure::CreateParent(e),
                InstallStep::ClearOld => DownloadFailure::ClearOld(e),
                InstallStep::Clone => DownloadFailure::RunGit(e),
                InstallStep::Build => DownloadFailure::RunCargo(e),
            },
        ),
        StepReport::ExitFailure(c) => Some(
            if step == InstallStep::Clone {
                DownloadFailure::GitExit(c)
            } else {
                DownloadFailure::CargoExit(c)
            },
        ),
        _ => None,
    }
}

/// What an installation does once `step` has reported `report`: a failure
/// ends it with its message; otherwise the next step runs, and after the
/// build the game is installed.
pub fn install_next(step: InstallStep, report: StepReport) -> (res: InstallNext)
    requires
        report_fits(step, report),
    ensures
        match step_failure(step, report) {
            Some(f) => res matches InstallNext::Failed(m) && m@ == failure_text(f),
            None => match step_after(step) {
                Some(next) => res == InstallNext::Run(next),
                None => res == InstallNext::Installed,
            },
        },
{
    let failure = match report {
        StepReport::Error(e) => Some(
            match step {
                InstallStep::CreateParent => DownloadFailure::CreateParent(e),
                InstallStep::ClearOld => DownloadFailure::ClearOld(e),
                InstallStep::Clone => DownloadFailure::RunGit(e),
                InstallStep::Build => DownloadFailure::RunCargo(e),
            },
        ),
        StepReport::ExitFailure(c) => Some(
            match step {
                InstallStep::Clone => DownloadFailure::GitExit(c),
                _ => DownloadFailure::CargoExit(c),
            },
        ),
        _ => None,
    };
    match failure {
        Some(f) => InstallNext::Failed(download_error_message(&f)),
        None => match step {
            InstallStep::CreateParent => InstallNext::Run(InstallStep::ClearOld),
            InstallStep::ClearOld => InstallNext::Run(InstallStep::Clone),
            InstallStep::Clone => InstallNext::Run(InstallStep::Build),
            InstallStep::Build => InstallNext::Installed,
        },
    }
}

} // verus!
