//! Compiling a snippet of Rust with rustc's expansion printer: the settings
//! of a run, the arguments it passes, and how its outcome is shown.
use vstd::prelude::*;
use vstd::string::StringSliceAdditionalSpecFns;

verus! {

/// How the compiler exited.
#[derive(Debug, Clone, Copy, PartialEq, Eq, Structural)]
pub enum ExitStatus {
    Success,
    Failure,
}

/// A compile that could not be run.
#[derive(Debug)]
pub enum Error {
    Build(String),
    Run(String),
}

/// What a compile printed, and how it exited.
#[derive(Debug)]
pub struct CompileOutput {
    pub status: ExitStatus,
    pub stdout: String,
    pub stderr: String,
}

/// The paths and the name a compile runs with.
#[derive(Debug, Clone)]
pub struct Config {
    pub manifest: String,
    pub target_dir: String,
    pub tmp_dir: String,
    pub function_name: String,
}

/// The status as it is shown.
pub open spec fn status_text(s: ExitStatus) -> Seq<char> {
    match s {
        ExitStatus::Success => "Success"@,
        ExitStatus::Failure => "Failure"@,
    }
}

/// The text a compile output is shown as: its exit status, then what it
/// printed on stderr and on stdout, each under a heading and only if
/// anything was printed.
pub open spec fn output_text(o: CompileOutput) -> Seq<char> {
    "exit status: "@ + status_text(o.status) + "\n"@ + (if o.stderr@.len() == 0 {
        Seq::empty()
    } else {
        "--- stderr \n"@ + o.stderr@ + "\n"@
    }) + (if o.stdout@.len() == 0 {
        Seq::empty()
    } else {
        "--- stdout \n"@ + o.stdout@ + "\n"@
    })
}

/// The exit status of a process that did or did not succeed.
pub fn exit_status(success: bool) -> (r: ExitStatus)
    ensures
        r == (if success { ExitStatus::Success } else { ExitStatus::Failure }),
{
    if success {
        ExitStatus::Success
    } else {
        ExitStatus::Failure
    }
}

impl CompileOutput {
    /// The text this output is shown as, as [`output_text`] says.
    pub fn render(&self) -> (r: String)
        ensures
            r@ == output_text(*self),
    {
        let mut s = String::new();
        s.append("exit status: ");
        match self.status {
            ExitStatus::Success => s.append("Success"),
            ExitStatus::Failure => s.append("Failure"),
        }
        s.append("\n");
        if !self.stderr.as_str().is_empty() {
            s.append("--- stderr \n");
            s.append(self.stderr.as_str());
            s.append("\n");
        }
        if !self.stdout.as_str().is_empty() {
            s.append("--- stdout \n");
            s.append(self.stdout.as_str());
            s.append("\n");
        }
        s
    }
}


/// Where the last piece of `b` split at `::` starts, scanning from `i` with
/// the current piece starting at `start`; matches do not overlap and are
/// found from the left, as `str::split` finds them.
pub open spec fn last_piece_start(b: Seq<u8>, i: nat, start: nat) -> nat
    decreases b.len() - i,
{
    if i + 2 <= b.len() && b[i as int] == 58 && b[(i + 1) as int] == 58 {
        last_piece_start(b, i + 2, i + 2)
    } else if i < b.len() {
        last_piece_start(b, i + 1, start)
    } else {
        start
    }
}

/// The name of the crate a snippet is compiled as: the last `::`-separated
/// piece of the function name.
pub open spec fn crate_name_of(function_name: Seq<u8>) -> Seq<u8> {
    function_name.subrange(last_piece_start(function_name, 0, 0) as int, function_name.len() as int)
}

proof fn lemma_piece_start_bounds(b: Seq<u8>, i: nat, start: nat)
    requires
        start <= i <= b.len(),
    ensures
        start <= last_piece_start(b, i, start) <= b.len(),
    decreases b.len() - i,
{
    if i + 2 <= b.len() && b[i as int] == 58 && b[(i + 1) as int] == 58 {
        lemma_piece_start_bounds(b, i + 2, i + 2);
    } else if i < b.len() {
        lemma_piece_start_bounds(b, i + 1, start);
    }
}

/// The bytes of the crate name a snippet compiled for `function_name` gets.
pub fn crate_name(function_name: &str) -> (r: Vec<u8>)
    ensures
        r@ == crate_name_of(function_name.spec_bytes()),
{
    let b = function_name.as_bytes();
    let ghost bs = b@;
    let mut i: usize = 0;
    let mut start: usize = 0;
    while i < b.len()
        invariant
            bs == b@,
            start <= i <= b@.len(),
            last_piece_start(bs, i as nat, start as nat) == last_piece_start(bs, 0, 0),
        decreases b@.len() - i,
    {
        if i + 1 < b.len() && b[i] == 58 && b[i + 1] == 58 {
            i = i + 2;
            start = i;
        } else {
            i = i + 1;
        }
    }
    proof {
        lemma_piece_start_bounds(bs, 0, 0);
    }
    let mut out: Vec<u8> = Vec::new();
    let mut j = start;
    while j < b.len()
        invariant
            bs == b@,
            start <= j <= b@.len(),
            out@ == bs.subrange(start as int, j as int),
        decreases b@.len() - j,
    {
        out.push(b[j]);
        assert(bs.subrange(start as int, j + 1) =~= bs.subrange(start as int, j as int).push(bs[j as int]));
        j = j + 1;
    }
    out
}

/// The arguments `RUSTFLAGS` adds: its bytes split at every space.
pub fn rust_flag_args(rust_flags: &[u8]) -> (r: Vec<Vec<u8>>)
    ensures
        r@.map_values(|p: Vec<u8>| p@) == crate::text::split_on(rust_flags@, 32),
{
    crate::text::split_bytes(rust_flags, 32)
}

} // verus!
