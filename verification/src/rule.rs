//! The interface to the external matching engine.
//!
//! Rule-source texts are compiled, best-effort, into one immutable rule
//! set; a per-job scan context is then created fresh for every job and
//! discarded after it, so nothing of the engine's mutable state is ever
//! shared or reused. The engine itself is an external collaborator: the
//! few calls into it stand behind trusted wrappers, and everything around
//! them — the skip-on-failure compile loop and the decision of when a
//! match result is emitted — is verified.
//!
//! The engine's behaviour is modelled by names, not spelled out: what a
//! compiler holds is the sequence of source texts handed to it, and a
//! scan's outcome is a function of those texts and the scanned bytes
//! alone. That determinism rests on how this crate builds and uses the
//! engine. On the compiler side, include processing is switched off in
//! every compiler made here, so compilation reads nothing from disk and
//! an include statement fails like any other bad source; the rule bundle
//! is a constant external input, handed over as whole texts. On the
//! scanner side, the clock-reading module is left out of the feature
//! set, every module that remains computes from the scanned bytes, and
//! the scanners made here set no timeout, scan no files, and inject no
//! module output.

use vstd::prelude::*;
use crate::pipeline::{Job, MatchResult, id_views};

verus! {

#[verifier::external_type_specification]
#[verifier::external_body]
pub struct ExCompiler<'a>(yara_x::Compiler<'a>);

#[verifier::external_type_specification]
#[verifier::external_body]
pub struct ExRules(yara_x::Rules);

#[verifier::external_type_specification]
#[verifier::external_body]
pub struct ExCompileError(yara_x::errors::CompileError);

#[verifier::external_type_specification]
#[verifier::external_body]
pub struct ExScanError(yara_x::errors::ScanError);

/// The source texts handed to a compiler so far, in order — those whose
/// compilation failed included, since the engine keeps whatever compiled
/// before a source's first error.
pub uninterp spec fn compiler_added(c: yara_x::Compiler<'static>) -> Seq<Seq<char>>;

/// Whether the engine accepts a source text, given the texts handed to
/// the compiler before it: with include processing off, compilation is a
/// function of the texts alone (a duplicate rule name, for instance,
/// fails against the prior texts; an include statement always fails).
pub uninterp spec fn compiles_in(src: Seq<char>, prior: Seq<Seq<char>>) -> bool;

/// The source texts a compiled rule set was built from, in order.
pub uninterp spec fn rules_texts(r: yara_x::Rules) -> Seq<Seq<char>>;

/// What scanning given bytes against the rule set built from the given
/// texts yields: the matched rule identifiers in the engine's discovery
/// order, or `None` where the engine fails on those bytes. Either way the
/// outcome is a function of the texts and the bytes — no clock, no
/// environment, no per-process state (see the module note above).
pub uninterp spec fn scan_outcome(srcs: Seq<Seq<char>>, data: Seq<u8>) -> Option<Seq<Seq<char>>>;

/// The views of a list of source texts.
pub open spec fn text_views(sources: Seq<String>) -> Seq<Seq<char>> {
    sources.map_values(|s: String| s@)
}

/// How many of the given texts the engine accepts, each judged against
/// the texts before it.
pub open spec fn count_accepted(srcs: Seq<Seq<char>>) -> int
    decreases srcs.len(),
{
    if srcs.len() == 0 {
        0
    } else {
        count_accepted(srcs.drop_last()) + if compiles_in(srcs.last(), srcs.drop_last()) {
            1 as int
        } else {
            0 as int
        }
    }
}

/// Relies on yara_x::Compiler::new and Compiler::enable_includes: a
/// fresh compiler holding no sources, with include processing switched
/// off — an include statement is then refused instead of read from disk,
/// which keeps compilation a function of the handed-over texts and rules
/// out the engine's path failure on an ill-encoded directory name.
#[verifier::external_body]
fn new_compiler() -> (r: yara_x::Compiler<'static>)
    ensures
        compiler_added(r) == Seq::<Seq<char>>::empty(),
{
    let mut compiler = yara_x::Compiler::new();
    compiler.enable_includes(false);
    compiler
}

/// Relies on yara_x::Compiler::add_source: compiles one rule-source text
/// into the compiler's pending rule set, reporting the first error if the
/// source does not compile; either way the compiler stays usable, keeps
/// what compiled, and success is decided by this text and the texts added
/// before it.
#[verifier::external_body]
fn add_source_text(compiler: &mut yara_x::Compiler<'static>, src: &str) -> (r: Result<
    (),
    yara_x::errors::CompileError,
>)
    ensures
        compiler_added(*final(compiler)) == compiler_added(*old(compiler)).push(src@),
        r is Ok <==> compiles_in(src@, compiler_added(*old(compiler))),
{
    match compiler.add_source(src) {
        Ok(_) => Ok(()),
        Err(e) => Err(e),
    }
}

/// Relies on yara_x::Compiler::build: the compiled, immutable rule set
/// holding whatever compiled from the sources handed to the compiler.
#[verifier::external_body]
fn build_rules(compiler: yara_x::Compiler<'static>) -> (r: yara_x::Rules)
    ensures
        rules_texts(r) == compiler_added(compiler),
{
    compiler.build()
}

/// Compiles a bundle of rule-source texts, best-effort: every source is
/// handed to the engine once, in bundle order; one that fails to compile
/// is skipped and never aborts the rest. Returns the loaded compiler along
/// with how many sources the engine accepted; even with zero accepted the
/// run proceeds, scanning with whatever rules compiled (the engine keeps
/// the rules of a source that compiled before its first error).
pub fn new_rule(sources: &Vec<String>) -> (r: (yara_x::Compiler<'static>, usize))
    ensures
        compiler_added(r.0) == text_views(sources@),
        r.1 == count_accepted(text_views(sources@)),
        r.1 <= sources@.len(),
{
    let ghost all = text_views(sources@);
    let mut compiler = new_compiler();
    let mut accepted: usize = 0;
    let mut i: usize = 0;
    proof {
        assert(all.take(0) =~= Seq::<Seq<char>>::empty());
    }
    while i < sources.len()
        invariant
            0 <= i <= sources@.len(),
            accepted <= i,
            all == text_views(sources@),
            compiler_added(compiler) == all.take(i as int),
            accepted == count_accepted(all.take(i as int)),
        decreases sources@.len() - i,
    {
        let ghost prior = all.take(i as int);
        let r = add_source_text(&mut compiler, sources[i].as_str());
        proof {
            assert(all[i as int] == sources@[i as int]@);
            assert(all.take(i as int + 1).drop_last() =~= prior);
            assert(all.take(i as int + 1).last() == all[i as int]);
            assert(compiler_added(compiler) =~= all.take(i as int + 1));
        }
        match r {
            Ok(_) => {
                accepted = accepted + 1;
            },
            Err(_) => {
                // Skip-and-continue: one bad source never aborts the run.
            },
        }
        i = i + 1;
    }
    proof {
        assert(all.take(i as int) =~= all);
    }
    (compiler, accepted)
}

/// Compiles a bundle straight to its immutable rule set: the bundle's
/// texts, in order, with the count of sources the engine accepted. Two
/// calls over the same bundle yield rule sets built from the same texts,
/// so every scan outcome over them agrees.
pub fn compile_rules(sources: &Vec<String>) -> (r: (yara_x::Rules, usize))
    ensures
        rules_texts(r.0) == text_views(sources@),
        r.1 == count_accepted(text_views(sources@)),
        r.1 <= sources@.len(),
{
    let (compiler, accepted) = new_rule(sources);
    (build_rules(compiler), accepted)
}

/// Relies on yara_x::Scanner::new and yara_x::Scanner::scan: a fresh scan
/// context bound to the shared rule set is created for this one job and
/// dropped afterwards (the context is not safe to reuse across unrelated
/// scans, so none ever is). No timeout is set and no module output is
/// injected, so the call succeeds or fails, and matches what it matches,
/// by the rule set and the bytes alone; the matched rule identifiers are
/// collected in discovery order.
#[verifier::external_body]
pub(crate) fn scan_bytes(rules: &yara_x::Rules, data: &Vec<u8>) -> (r: Result<
    Vec<String>,
    yara_x::errors::ScanError,
>)
    ensures
        r is Ok <==> scan_outcome(rules_texts(*rules), data@) is Some,
        r matches Ok(ids) ==> Some(id_views(ids@)) == scan_outcome(rules_texts(*rules), data@),
{
    let mut scanner = yara_x::Scanner::new(rules);
    match scanner.scan(data.as_slice()) {
        Ok(results) => Ok(
            results.matching_rules().map(|rule| rule.identifier().to_string()).collect(),
        ),
        Err(e) => Err(e),
    }
}

/// The error for a job the engine could not scan. The caller logs it
/// and moves on; the job is never retried.
#[derive(PartialEq, Eq, Structural, Debug, Clone, Copy)]
pub enum ScanJobError {
    EngineFailure,
}

/// Turns one scan outcome into what the worker emits: a match result
/// exactly when the engine succeeded and at least one rule matched,
/// carrying that job's path and the matched identifiers unchanged.
pub fn process_scan_outcome(path: String, ids: Option<Vec<String>>) -> (r: Option<MatchResult>)
    ensures
        r is Some <==> (ids matches Some(v) && v@.len() > 0),
        r matches Some(m) ==> m@.path == path@ && m@.rule_ids == id_views(ids.unwrap()@),
{
    match ids {
        Some(v) => {
            if v.len() > 0 {
                Some(MatchResult { path, rule_ids: v })
            } else {
                None
            }
        },
        None => None,
    }
}

/// Scans one job against the shared rule set: a match result naming the
/// matched rules where there are any, nothing for a clean non-match, and
/// an error — for the caller to log and skip, never retry — where the
/// engine fails on that job.
pub fn scan_job(rules: &yara_x::Rules, job: &Job) -> (r: Result<Option<MatchResult>, ScanJobError>)
    ensures
        r is Err <==> scan_outcome(rules_texts(*rules), job.content@) is None,
        r matches Ok(found) ==> {
            let ids = scan_outcome(rules_texts(*rules), job.content@).unwrap();
            &&& (found is Some <==> ids.len() > 0)
            &&& (found matches Some(m) ==> m@.path == job.path@ && m@.rule_ids == ids)
        },
{
    match scan_bytes(rules, &job.content) {
        Ok(v) => Ok(process_scan_outcome(job.path.clone(), Some(v))),
        Err(_) => Err(ScanJobError::EngineFailure),
    }
}

} // verus!
