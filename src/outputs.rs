//! Collecting what a child process wrote, and deciding the outcome of a run.
use vstd::prelude::*;
use crate::error::CapturedWorkdirError;
use crate::process::{KeepSandboxes, Process};
use crate::text::append_bytes;
use vstd::utf8::encode_utf8;

verus! {

/// One event from a running child: a chunk of its standard output, a chunk
/// of its standard error, or its exit code (a negative code `-n` means it was
/// ended by signal `n`).
#[derive(Clone, Debug, PartialEq, Eq)]
pub enum ChildOutput {
    Stdout(Vec<u8>),
    Stderr(Vec<u8>),
    Exit(i32),
}

/// The bytes that the events carry for standard output.
pub open spec fn stdout_bytes(s: Seq<Result<ChildOutput, String>>) -> Seq<u8>
    decreases s.len(),
{
    if s.len() == 0 {
        Seq::empty()
    } else {
        stdout_bytes(s.drop_last()) + match s.last() {
            Ok(ChildOutput::Stdout(b)) => b@,
            _ => Seq::empty(),
        }
    }
}

/// The bytes that the events carry for standard error.
pub open spec fn stderr_bytes(s: Seq<Result<ChildOutput, String>>) -> Seq<u8>
    decreases s.len(),
{
    if s.len() == 0 {
        Seq::empty()
    } else {
        stderr_bytes(s.drop_last()) + match s.last() {
            Ok(ChildOutput::Stderr(b)) => b@,
            _ => Seq::empty(),
        }
    }
}

/// The code of the last exit event, or 1 where there is none.
pub open spec fn exit_code_of(s: Seq<Result<ChildOutput, String>>) -> i32
    decreases s.len(),
{
    if s.len() == 0 {
        1
    } else {
        match s.last() {
            Ok(ChildOutput::Exit(c)) => c,
            _ => exit_code_of(s.drop_last()),
        }
    }
}

/// Drains the events of a child in order into `stdout` and `stderr`, and
/// returns its exit code (1 where no exit event came). The first failed
/// event ends the draining and its message is returned.
pub fn collect_child_outputs(
    stdout: &mut Vec<u8>,
    stderr: &mut Vec<u8>,
    stream: Vec<Result<ChildOutput, String>>,
) -> (r: Result<i32, String>)
    ensures
        r is Ok <==> forall|j: int| 0 <= j < stream@.len() ==> (#[trigger] stream@[j]) is Ok,
        r matches Ok(code) ==> {
            &&& code == exit_code_of(stream@)
            &&& final(stdout)@ == old(stdout)@ + stdout_bytes(stream@)
            &&& final(stderr)@ == old(stderr)@ + stderr_bytes(stream@)
        },
        r matches Err(e) ==> exists|k: int| {
            &&& 0 <= k < stream@.len()
            &&& #[trigger] stream@[k] == Err::<ChildOutput, String>(e)
            &&& forall|j: int| 0 <= j < k ==> (#[trigger] stream@[j]) is Ok
            &&& final(stdout)@ == old(stdout)@ + stdout_bytes(stream@.take(k))
            &&& final(stderr)@ == old(stderr)@ + stderr_bytes(stream@.take(k))
        },
{
    let mut exit_code: i32 = 1;
    let mut i: usize = 0;
    while i < stream.len()
        invariant
            i <= stream@.len(),
            forall|j: int| 0 <= j < i ==> (#[trigger] stream@[j]) is Ok,
            exit_code == exit_code_of(stream@.take(i as int)),
            stdout@ == old(stdout)@ + stdout_bytes(stream@.take(i as int)),
            stderr@ == old(stderr)@ + stderr_bytes(stream@.take(i as int)),
        decreases stream@.len() - i,
    {
        let ghost before = stream@.take(i as int);
        let ghost after = stream@.take(i + 1);
        assert(after.drop_last() =~= before);
        assert(after.last() == stream@[i as int]);
        match &stream[i] {
            Err(e) => {
                return Err(e.clone());
            },
            Ok(ChildOutput::Stdout(b)) => {
                append_bytes(stdout, b);
                assert(stderr_bytes(after) =~= stderr_bytes(before));
            },
            Ok(ChildOutput::Stderr(b)) => {
                append_bytes(stderr, b);
                assert(stdout_bytes(after) =~= stdout_bytes(before));
            },
            Ok(ChildOutput::Exit(c)) => {
                exit_code = *c;
                assert(stdout_bytes(after) =~= stdout_bytes(before));
                assert(stderr_bytes(after) =~= stderr_bytes(before));
            },
        }
        i = i + 1;
    }
    assert(stream@.take(i as int) =~= stream@);
    Ok(exit_code)
}

/// The exit code of a finished child from its wait status: the status code
/// where there is one, else the negated number of the signal that ended it.
/// `None` where the status holds neither.
pub fn exit_code_from_status(code: Option<i32>, signal: Option<i32>) -> (r: Option<i32>)
    requires
        signal matches Some(s) ==> s > i32::MIN,
    ensures
        code matches Some(c) ==> r == Some(c),
        code is None && signal is None ==> r is None,
        code is None ==> (signal matches Some(s) ==> r == Some((-s) as i32)),
{
    match code {
        Some(c) => Some(c),
        None => match signal {
            Some(s) => Some(-s),
            None => None,
        },
    }
}

/// Relies on `libc::SIGTERM`, the number of the termination signal.
#[verifier::external_body]
fn sigterm() -> (r: i32)
    ensures
        r == 15,
{
    libc::SIGTERM
}

/// Whether a request declares any output to capture.
pub open spec fn declares_outputs(req: Process) -> bool {
    req.output_files@.len() > 0 || req.output_directories@.len() > 0
}

/// Whether the outputs of `req` are to be captured into a snapshot; where
/// not, the result's output digest is the empty directory.
pub fn needs_output_snapshot(req: &Process) -> (r: bool)
    ensures
        r == declares_outputs(*req),
{
    req.output_files.len() > 0 || req.output_directories.len() > 0
}

/// How a run ended, before its outputs are stored.
#[derive(Clone, Copy, Debug, PartialEq, Eq, Structural)]
pub struct RunOutcome {
    pub exit_code: i32,
    /// Whether the declared outputs are captured; where not, the output
    /// digest is the empty directory.
    pub capture_outputs: bool,
}

/// `"\n\n"` followed by the text of `e`, as bytes.
pub open spec fn timeout_notice(e: CapturedWorkdirError) -> Seq<u8> {
    seq![10u8, 10u8] + encode_utf8(e.spec_message())
}

/// Ends a run from what draining the child gave. A drained child keeps its
/// exit code and has its outputs captured where `req` declares any. A timeout
/// is no error: the run ends with the negated termination signal, its notice
/// is appended to `stderr` and nothing is captured. Any other error is
/// passed on.
pub fn finish_run(
    req: &Process,
    drained: Result<i32, CapturedWorkdirError>,
    stderr: &mut Vec<u8>,
) -> (r: Result<RunOutcome, CapturedWorkdirError>)
    ensures
        drained matches Ok(c) ==> r == Ok::<RunOutcome, CapturedWorkdirError>(
            RunOutcome { exit_code: c, capture_outputs: declares_outputs(*req) },
        ) && final(stderr)@ == old(stderr)@,
        drained matches Err(e) ==> if e is Timeout {
            &&& r == Ok::<RunOutcome, CapturedWorkdirError>(
                RunOutcome { exit_code: -15i32, capture_outputs: false },
            )
            &&& final(stderr)@ == old(stderr)@ + timeout_notice(e)
        } else {
            r == Err::<RunOutcome, CapturedWorkdirError>(e) && final(stderr)@ == old(stderr)@
        },
{
    match drained {
        Ok(c) => Ok(RunOutcome { exit_code: c, capture_outputs: needs_output_snapshot(req) }),
        Err(e) => {
            if let CapturedWorkdirError::Timeout { .. } = e {
                let text = e.message();
                let mut notice: Vec<u8> = vec![10u8, 10u8];
                append_bytes(&mut notice, &text.as_str().as_bytes_vec());
                append_bytes(stderr, &notice);
                Ok(RunOutcome { exit_code: -sigterm(), capture_outputs: false })
            } else {
                Err(e)
            }
        },
    }
}

/// Whether the sandbox of a run is kept on disk under `policy`, where
/// `exit_code` is the run's exit code, or `None` where the run failed.
pub fn should_keep_sandbox(policy: KeepSandboxes, exit_code: Option<i32>) -> (r: bool)
    ensures
        policy == KeepSandboxes::Always ==> r,
        policy == KeepSandboxes::Never ==> !r,
        policy == KeepSandboxes::OnFailure ==> r == (exit_code != Some(0i32)),
{
    match policy {
        KeepSandboxes::Always => true,
        KeepSandboxes::Never => false,
        KeepSandboxes::OnFailure => match exit_code {
            Some(c) => c != 0,
            None => true,
        },
    }
}

/// The glob root of an output directory: the directory itself, `.` for the
/// sandbox root.
pub open spec fn dir_glob_root(d: Seq<char>) -> Seq<char> {
    if d.len() == 0 {
        "."@
    } else {
        d
    }
}

/// Two globs for each output directory: the directory and all below it.
pub open spec fn dir_globs(dirs: Seq<String>) -> Seq<Seq<char>>
    decreases dirs.len(),
{
    if dirs.len() == 0 {
        Seq::empty()
    } else {
        dir_globs(dirs.drop_last()) + seq![
            dir_glob_root(dirs.last()@),
            dir_glob_root(dirs.last()@) + "/**"@,
        ]
    }
}

/// The globs that capture the outputs of a process: those of each output
/// directory, then each output file as it stands.
pub open spec fn output_globs_of(files: Seq<String>, dirs: Seq<String>) -> Seq<Seq<char>> {
    dir_globs(dirs) + files.map_values(|f: String| f@)
}

/// The globs that capture the declared outputs of a process.
pub fn output_globs(output_files: &Vec<String>, output_directories: &Vec<String>) -> (r: Vec<String>)
    ensures
        r@.map_values(|g: String| g@) == output_globs_of(output_files@, output_directories@),
{
    let mut out: Vec<String> = Vec::new();
    let mut i: usize = 0;
    proof { reveal_strlit("."); reveal_strlit("/**"); }
    while i < output_directories.len()
        invariant
            i <= output_directories@.len(),
            out@.map_values(|g: String| g@) == dir_globs(output_directories@.take(i as int)),
        decreases output_directories@.len() - i,
    {
        let d = &output_directories[i];
        let root = if d.as_str().unicode_len() == 0 {
            String::from_str(".")
        } else {
            d.clone()
        };
        let all = root.clone().concat("/**");
        let ghost before = out@.map_values(|g: String| g@);
        out.push(root);
        out.push(all);
        assert(output_directories@.take(i + 1).drop_last() =~= output_directories@.take(i as int));
        assert(out@.map_values(|g: String| g@) =~= dir_globs(output_directories@.take(i + 1)));
        i = i + 1;
    }
    assert(output_directories@.take(i as int) =~= output_directories@);
    let ghost dirs_part = out@.map_values(|g: String| g@);
    let ghost dn = out@.len();
    let mut k: usize = 0;
    while k < output_files.len()
        invariant
            k <= output_files@.len(),
            dirs_part.len() == dn,
            out@.len() == dn + k,
            forall|j: int| 0 <= j < dn ==> (#[trigger] out@[j])@ == dirs_part[j],
            forall|j: int| 0 <= j < k ==> (#[trigger] out@[dn + j])@ == output_files@[j]@,
        decreases output_files@.len() - k,
    {
        out.push(output_files[k].clone());
        k = k + 1;
    }
    assert(out@.map_values(|g: String| g@) =~= dirs_part + output_files@.map_values(|f: String| f@)) by {
        assert forall|j: int| dn <= j < out@.len() implies (#[trigger] out@[j])@ == output_files@[j - dn]@ by {
            assert(out@[dn + (j - dn)] == out@[j]);
        }
    }
    out
}

} // verus!
