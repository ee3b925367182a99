//! A finished invocation, and what the arguments alone decide: help, a
//! usage error, or the command to run.
use vstd::prelude::*;
use vstd::string::{StrSliceExecFns, StringExecFns, StringSliceAdditionalSpecFns};

use crate::cli::args::{command_table, parse, parse_model, Invocation, ParseOutcome, Parsed, Usage};
use crate::cli::code;
use crate::order::texts;
use crate::text::join3;

verus! {

/// What `help` prints.
pub const HELP: &'static str = "\
rustev: compile, inspect, run, replay and evaluate Rustev decision plans.

  rustev plan check   --definition F [--descriptor F]... [--rules F]... [--calibration F]... [--execution F]
  rustev plan compile --definition F [...same...] --out F
  rustev plan show    --plan F [--descriptor F]... [--rules F]... [--calibration F]...
  rustev run          --plan F --rules F... [--calibration F]... --snapshot F
                      --evaluation-time MS --decision-id ID --record-out F
                      [--deadline-ms N] [--max-parallel-requests N] [--sink-timeout-ms N]
                      [--capture-bytes N --bundle-out F --now-ms MS|system SCOPE
                       [--retain digest-only|embedded|external] [--store DIR]
                       [--lifetime-ms N] [--host-cap-ms N]]
  rustev replay       --bundle F --now-ms MS|system SCOPE [--store DIR] [--host-cap-ms N]
  rustev eval         --dataset F --split S --config F --adapter F --bundles DIR
                      --now-ms MS|system SCOPE --out DIR [--store DIR] [--host-cap-ms N]
                      [--candidate-plan F [--descriptor F]... [--rules F]... [--calibration F]...]
  rustev gate         --baseline DIR --candidate DIR --gate NAME
  rustev calibrate fit     --dataset F --config F --step ID --bundles DIR
                           --now-ms MS|system SCOPE --out DIR [--store DIR] [--host-cap-ms N]
  rustev calibrate qualify --calibration F [--fit F] --dataset F --split S

  SCOPE: [--scope principal|tenant-only] --tenant H --context-revision H
         [--principal-scope H]   (required in principal mode, the default)

Each command prints one JSON object on stdout; the exit code is its status.
";

/// A finished invocation.
#[derive(Debug, Clone)]
pub struct Exit {
    pub code: u8,
    pub stdout: Vec<u8>,
    pub stderr: String,
}

/// How a usage error ends the invocation: exit 2, nothing on stdout, the
/// message on stderr.
pub fn usage_exit(u: Usage) -> (r: Exit)
    ensures
        r.code == code::USAGE,
        r.stdout@ == Seq::<u8>::empty(),
        r.stderr@ == "rustev: "@ + u.0@ + "\n"@,
{
    Exit { code: code::USAGE, stdout: Vec::new(), stderr: join3("rustev: ", u.0.as_str(), "\n") }
}

/// What the arguments alone decide: an exit (help or a usage error), or a
/// command to run.
#[derive(Debug)]
pub enum Start {
    Exit(Exit),
    Command(Parsed),
}

/// Help prints [`HELP`] and exits 0; a usage error exits 2 before any file
/// is read; anything else is a command to run.
pub fn start(argv: &[String]) -> (r: Start)
    ensures
        match parse_model(command_table(), texts(argv@)) {
            ParseOutcome::Help => r matches Start::Exit(e) && e.code == code::OK
                && e.stdout@ == HELP.spec_bytes() && e.stderr@ == Seq::<char>::empty(),
            ParseOutcome::Refused { message } => r matches Start::Exit(e) && e.code
                == code::USAGE && e.stdout@ == Seq::<u8>::empty() && e.stderr@ == "rustev: "@
                + message + "\n"@,
            ParseOutcome::Command { cmd, pairs } => r matches Start::Command(p)
                && p.command_model() == command_table()[cmd] && p.pairs() == pairs,
        },
{
    match parse(argv) {
        Ok(Invocation::Help) => Start::Exit(
            Exit { code: code::OK, stdout: HELP.as_bytes_vec(), stderr: String::new() },
        ),
        Ok(Invocation::Command(p)) => Start::Command(p),
        Err(u) => Start::Exit(usage_exit(u)),
    }
}

} // verus!
