//! Whether the process runs with administrator (root) rights, and the commands
//! that ask the system to run a program with them.
use vstd::prelude::*;
use crate::text::{push_str_chars, string_of};

verus! {

/// The effective user id of the process: `nix::unistd::geteuid`, taken as its raw
/// value with `Uid::as_raw`. Nothing is claimed of the value: it depends on how
/// the process was started.
#[verifier::external_body]
fn effective_uid() -> (r: u32) {
    nix::unistd::geteuid().as_raw()
}

/// Whether a user id is that of root (`Uid::is_root`: the id 0).
pub fn is_root_uid(uid: u32) -> (r: bool)
    ensures
        r == (uid == 0),
{
    uid == 0
}

/// Whether the process runs as root (its effective user id is 0).
pub fn is_elevated() -> (r: bool) {
    let uid = effective_uid();
    is_root_uid(uid)
}

/// The rights the process runs with, as the front end is told.
#[derive(Debug, Clone, Copy, PartialEq, Eq, Structural)]
pub struct PrivilegeStatus {
    pub elevated: bool,
}

impl PrivilegeStatus {
    /// The status that reports `elevated`.
    pub fn new(elevated: bool) -> (s: Self)
        ensures
            s.elevated == elevated,
    {
        PrivilegeStatus { elevated }
    }
}

/// The status of the running process.
pub fn privilege_status() -> (s: PrivilegeStatus) {
    PrivilegeStatus::new(is_elevated())
}

/// The argument that tells a restarted instance that it takes over from the
/// one that started it.
pub const TAKEOVER_ARG: &'static str = "--rf-takeover";

/// `args` joined with single spaces.
pub open spec fn spec_join_args(args: Seq<Seq<char>>) -> Seq<char> {
    crate::scan::spec_join(args, seq![' '])
}

fn join_args(args: &[&str]) -> (r: Vec<char>)
    ensures
        r@ == spec_join_args(args@.map_values(|a: &str| a@)),
{
    let ghost all = args@.map_values(|a: &str| a@);
    let mut v: Vec<char> = Vec::new();
    let mut k: usize = 0;
    while k < args.len()
        invariant
            k <= args@.len(),
            all == args@.map_values(|a: &str| a@),
            v@ == crate::scan::spec_join(all.subrange(0, k as int), seq![' ']),
        decreases args@.len() - k,
    {
        let ghost ts = all.subrange(0, k + 1);
        assert(ts.drop_last() =~= all.subrange(0, k as int));
        assert(ts.last() == args@[k as int]@);
        if k > 0 {
            v.push(' ');
        } else {
            assert(v@ =~= Seq::<char>::empty());
        }
        push_str_chars(&mut v, args[k]);
        assert(v@ =~= crate::scan::spec_join(ts, seq![' ']));
        k = k + 1;
    }
    assert(all.subrange(0, k as int) =~= all);
    v
}

/// The PowerShell command that runs `program` with `args` through the UAC
/// prompt and waits for it.
pub open spec fn spec_runas_command(program: Seq<char>, args: Seq<Seq<char>>) -> Seq<char> {
    "Start-Process -FilePath '"@ + program + "' -ArgumentList '"@ + spec_join_args(args)
        + "' -Verb RunAs -Wait"@
}

/// The PowerShell command that runs a program with administrator rights on Windows.
pub fn runas_command(program: &str, args: &[&str]) -> (r: String)
    ensures
        r@ == spec_runas_command(program@, args@.map_values(|a: &str| a@)),
{
    let mut v: Vec<char> = Vec::new();
    push_str_chars(&mut v, "Start-Process -FilePath '");
    push_str_chars(&mut v, program);
    push_str_chars(&mut v, "' -ArgumentList '");
    let joined = join_args(args);
    let ghost before = v@;
    let mut k: usize = 0;
    while k < joined.len()
        invariant
            k <= joined@.len(),
            v@ == before + joined@.subrange(0, k as int),
        decreases joined@.len() - k,
    {
        v.push(joined[k]);
        k = k + 1;
        assert(v@ =~= before + joined@.subrange(0, k as int));
    }
    assert(joined@.subrange(0, k as int) =~= joined@);
    push_str_chars(&mut v, "' -Verb RunAs -Wait");
    string_of(&v)
}

/// The PowerShell command that restarts the application with administrator
/// rights, telling the new instance to take over.
pub open spec fn spec_takeover_command(exe: Seq<char>) -> Seq<char> {
    "Start-Process -FilePath '"@ + exe + "' -ArgumentList '--rf-takeover' -Verb RunAs"@
}

/// The PowerShell command that restarts the application with administrator rights.
pub fn takeover_command(exe: &str) -> (r: String)
    ensures
        r@ == spec_takeover_command(exe@),
{
    let mut v: Vec<char> = Vec::new();
    push_str_chars(&mut v, "Start-Process -FilePath '");
    push_str_chars(&mut v, exe);
    push_str_chars(&mut v, "' -ArgumentList '--rf-takeover' -Verb RunAs");
    string_of(&v)
}

/// The AppleScript that runs `program` with `args` with administrator rights on macOS.
pub open spec fn spec_osascript(program: Seq<char>, args: Seq<Seq<char>>) -> Seq<char> {
    "do shell script \"'"@ + program + "' "@ + spec_join_args(args) + "\" with administrator privileges"@
}

/// The AppleScript that runs a program with administrator rights on macOS.
pub fn osascript_command(program: &str, args: &[&str]) -> (r: String)
    ensures
        r@ == spec_osascript(program@, args@.map_values(|a: &str| a@)),
{
    let mut v: Vec<char> = Vec::new();
    push_str_chars(&mut v, "do shell script \"'");
    push_str_chars(&mut v, program);
    push_str_chars(&mut v, "' ");
    let joined = join_args(args);
    let ghost before = v@;
    let mut k: usize = 0;
    while k < joined.len()
        invariant
            k <= joined@.len(),
            v@ == before + joined@.subrange(0, k as int),
        decreases joined@.len() - k,
    {
        v.push(joined[k]);
        k = k + 1;
        assert(v@ =~= before + joined@.subrange(0, k as int));
    }
    assert(joined@.subrange(0, k as int) =~= joined@);
    push_str_chars(&mut v, "\" with administrator privileges");
    string_of(&v)
}

/// What an instance does at start-up, given what it found of the single-instance lock.
#[derive(Debug, Clone, Copy, PartialEq, Eq, Structural)]
pub enum InstanceCheck {
    /// The lock is this process's alone.
    Exclusive,
    /// Another instance holds it.
    Taken,
    /// The lock could not be created.
    Failed,
}

#[derive(Debug, Clone, Copy, PartialEq, Eq, Structural)]
pub enum InstanceAction {
    /// Go on starting.
    Start,
    /// Bring the other instance's window to the front and exit.
    ActivateAndExit,
    /// Wait a moment and check again.
    WaitAndRetry,
}

/// How many times a taking-over instance checks again (every 250 ms, 10 s in all).
pub const TAKEOVER_ATTEMPTS: u32 = 40;

/// What an instance does after its first check of the lock: start when it has
/// the lock or the lock failed; when another instance holds it, exit (after
/// activating that instance's window) unless it takes over, in which case it waits.
pub fn first_instance_action(check: InstanceCheck, takeover: bool) -> (r: InstanceAction)
    ensures
        check != InstanceCheck::Taken ==> r == InstanceAction::Start,
        check == InstanceCheck::Taken && !takeover ==> r == InstanceAction::ActivateAndExit,
        check == InstanceCheck::Taken && takeover ==> r == InstanceAction::WaitAndRetry,
{
    match check {
        InstanceCheck::Taken => if takeover {
            InstanceAction::WaitAndRetry
        } else {
            InstanceAction::ActivateAndExit
        },
        _ => InstanceAction::Start,
    }
}

/// What a taking-over instance does after check number `attempt` (from 1):
/// start once the lock is free or failed, wait again while it is held, and start
/// anyway after the last attempt.
pub fn takeover_action(check: InstanceCheck, attempt: u32) -> (r: InstanceAction)
    ensures
        check != InstanceCheck::Taken ==> r == InstanceAction::Start,
        check == InstanceCheck::Taken && attempt < TAKEOVER_ATTEMPTS ==> r == InstanceAction::WaitAndRetry,
        check == InstanceCheck::Taken && attempt >= TAKEOVER_ATTEMPTS ==> r == InstanceAction::Start,
{
    match check {
        InstanceCheck::Taken => if attempt < TAKEOVER_ATTEMPTS {
            InstanceAction::WaitAndRetry
        } else {
            InstanceAction::Start
        },
        _ => InstanceAction::Start,
    }
}

/// Whether a window title is that of this application's main window: at least
/// 9 characters were read and it starts with `RescueForge`.
pub fn is_app_window_title(title: &str, read: i32) -> (r: bool)
    ensures
        r == (read >= 9 && crate::text::has_prefix(title@, "RescueForge"@)),
{
    if read < 9 {
        return false;
    }
    let t = crate::text::chars_of(title);
    let p = crate::text::chars_of("RescueForge");
    crate::text::starts_with_chars(&t, &p)
}

} // verus!
