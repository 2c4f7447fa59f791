//! The orchestrator: compiles and validates every top-level message of each requested
//! file, and emits the mapping of each message that is not empty and has no error.
use vstd::prelude::*;

use crate::compile::{
    compile_diags, compile_message, compiled, field_count, lemma_compiled_unique, same_mapping, valid_message,
};
use crate::descriptor::opt_str_view;
use crate::context::{config_spec, files_wf, has_annotation_message, Context, Error};
use crate::descriptor::FileDescriptor;
use crate::diagnostic::{diags_view, Diagnostic, Severity};
use crate::mapping::Mapping;
use crate::validator::{entries_diags, lemma_entries_same, validate, ValidationContext};

verus! {

/// A generated output: `<message full name>.json` and the mapping it holds.
#[derive(Debug)]
pub struct GeneratedFile {
    pub name: String,
    pub mapping: Mapping,
}

pub open spec fn has_error_spec(ds: Seq<Diagnostic>) -> bool {
    exists|i: int| 0 <= i < ds.len() && (#[trigger] ds[i]).severity == Severity::Error
}

/// Whether some diagnostic is an error.
pub fn has_errors(diagnostics: &Vec<Diagnostic>) -> (r: bool)
    ensures
        r == has_error_spec(diagnostics@),
{
    let mut i: usize = 0;
    while i < diagnostics.len()
        invariant
            i <= diagnostics@.len(),
            forall|k: int| 0 <= k < i ==> (#[trigger] diagnostics@[k]).severity != Severity::Error,
        decreases diagnostics.len() - i,
    {
        if diagnostics[i].is_error() {
            return true;
        }
        i = i + 1;
    }
    false
}

/// Whether a message's mapping is emitted: it has a property or index options, and the
/// message has no error diagnostic. Warnings never suppress it.
pub fn should_emit(mapping: &Mapping, diagnostics: &Vec<Diagnostic>) -> (r: bool)
    ensures
        r == ((mapping.properties@.len() > 0 || mapping.index is Some) && !has_error_spec(diagnostics@)),
{
    mapping.is_non_empty() && !has_errors(diagnostics)
}

/// `ds` is what validating mapping `m` of message `mi` of file `fi` reports, with
/// locations in `file`.
pub open spec fn validated(ctx: Context, file: Seq<char>, fi: int, mi: int, m: Mapping, ds: Seq<Diagnostic>) -> bool {
    diags_view(ds) == entries_diags(ctx, file, fi, mi, m.properties@, m.properties@.len() as int)
}

/// `run` is the result of compiling and validating message `mi` of file `fi`, reporting
/// locations in `file`: the compiled mapping, then the compiler's diagnostics followed by
/// the validator's.
pub open spec fn message_run(ctx: Context, file: Seq<char>, fi: int, mi: int, fuel: nat, run: (Mapping, Seq<Diagnostic>)) -> bool {
    let cd = compile_diags(ctx, fi, mi, seq![(fi as usize, mi as usize)], fuel, file, field_count(ctx, fi, mi));
    &&& compiled(ctx, fi, mi, seq![(fi as usize, mi as usize)], fuel, run.0)
    &&& run.1.len() >= cd.len()
    &&& diags_view(run.1.take(cd.len() as int)) == cd
    &&& validated(ctx, file, fi, mi, run.0, run.1.skip(cd.len() as int))
}

/// Compiles and validates message `mi` of file `fi`, reporting locations in `file`.
pub fn compile_and_validate(ctx: &Context, fi: usize, mi: usize, file: &String, fuel: usize) -> (r: (Mapping, Vec<Diagnostic>))
    requires
        valid_message(*ctx, fi as int, mi as int),
    ensures
        message_run(*ctx, file@, fi as int, mi as int, fuel as nat, (r.0, r.1@)),
{
    let vctx = ValidationContext::new(ctx, file, fi, mi);
    let mut diagnostics: Vec<Diagnostic> = Vec::new();
    let mut ancestors: Vec<(usize, usize)> = Vec::new();
    ancestors.push((fi, mi));
    let mapping = compile_message(ctx, fi, mi, file, &ancestors, fuel, &mut diagnostics);
    let ghost compiled_diags = diagnostics@;
    let mut found = validate(ctx, &vctx, &mapping);
    let ghost vd = found@;
    diagnostics.append(&mut found);
    proof {
        assert(ancestors@ =~= seq![(fi, mi)]);
        assert(diags_view(compiled_diags) =~= diags_view(Seq::<Diagnostic>::empty()) + compile_diags(
            *ctx, fi as int, mi as int, seq![(fi, mi)], fuel as nat, file@, field_count(*ctx, fi as int, mi as int)));
        assert(diagnostics@.take(compiled_diags.len() as int) =~= compiled_diags);
        assert(diagnostics@.skip(compiled_diags.len() as int) =~= vd);
    }
    (mapping, diagnostics)
}

/// The saturating count of the messages of the first `upto` files.
pub open spec fn message_count_spec(files: Seq<FileDescriptor>, upto: int) -> int
    decreases upto,
{
    if upto <= 0 {
        0
    } else {
        let t = message_count_spec(files, upto - 1);
        let n = files[upto - 1].messages@.len() as int;
        if t <= usize::MAX - n {
            t + n
        } else {
            usize::MAX as int
        }
    }
}

/// How many messages the context holds, at most `usize::MAX`: a bound on how deep
/// embedded messages nest without a cycle.
pub fn message_count(ctx: &Context) -> (r: usize)
    ensures
        r == message_count_spec(ctx.files@, ctx.files@.len() as int),
{
    let mut total: usize = 0;
    let mut i: usize = 0;
    while i < ctx.files.len()
        invariant
            i <= ctx.files@.len(),
            total == message_count_spec(ctx.files@, i as int),
        decreases ctx.files.len() - i,
    {
        let n = ctx.files[i].messages.len();
        total = if total <= usize::MAX - n { total + n } else { usize::MAX };
        i = i + 1;
    }
    total
}

/// Some file of `files` is named `name`.
pub open spec fn file_present(files: Seq<FileDescriptor>, name: Seq<char>) -> bool {
    exists|i: int| 0 <= i < files.len() && #[trigger] files[i].name@ == name
}

pub open spec fn all_requested_present(ctx: Context) -> bool {
    forall|j: int| 0 <= j < ctx.files_to_generate@.len() ==> file_present(ctx.files@, #[trigger] ctx.files_to_generate@[j]@)
}

/// The index of the first file named `name`.
pub open spec fn file_index_spec(files: Seq<FileDescriptor>, name: Seq<char>) -> int {
    choose|i: int| 0 <= i < files.len() && files[i].name@ == name && forall|k: int| 0 <= k < i ==> #[trigger] files[k].name@ != name
}

/// The top-level messages among the first `upto` of file `fi`, as `(file, message)`.
pub open spec fn top_level(ctx: Context, fi: int, upto: int) -> Seq<(int, int)>
    decreases upto,
{
    if upto <= 0 {
        Seq::empty()
    } else if ctx.files@[fi].messages@[upto - 1].parent is None {
        top_level(ctx, fi, upto - 1).push((fi, upto - 1))
    } else {
        top_level(ctx, fi, upto - 1)
    }
}

/// The messages that the first `upto` requested files run, in order: each file's
/// top-level messages in declaration order, with the requested name.
pub open spec fn slots(ctx: Context, upto: int) -> Seq<(Seq<char>, int, int)>
    decreases upto,
{
    if upto <= 0 {
        Seq::empty()
    } else {
        let name = ctx.files_to_generate@[upto - 1]@;
        let fi = file_index_spec(ctx.files@, name);
        slots(ctx, upto - 1) + top_level(ctx, fi, ctx.files@[fi].messages@.len() as int).map_values(
            |x: (int, int)| (name, x.0, x.1),
        )
    }
}

/// Whether a run's mapping is emitted.
pub open spec fn emits(run: (Mapping, Seq<Diagnostic>)) -> bool {
    (run.0.properties@.len() > 0 || run.0.index is Some) && !has_error_spec(run.1)
}

/// `out` holds, in order, `<full name>.json` with the mapping of each run that emits.
pub open spec fn outputs_match(ctx: Context, out: Seq<GeneratedFile>, sl: Seq<(Seq<char>, int, int)>, runs: Seq<(Mapping, Seq<Diagnostic>)>) -> bool
    decreases sl.len(),
{
    if sl.len() == 0 || runs.len() == 0 {
        out.len() == 0
    } else if emits(runs.last()) {
        &&& out.len() > 0
        &&& out.last().name@ == ctx.files@[sl.last().1].messages@[sl.last().2].full_name@ + ".json"@
        &&& out.last().mapping == runs.last().0
        &&& outputs_match(ctx, out.drop_last(), sl.drop_last(), runs.drop_last())
    } else {
        outputs_match(ctx, out, sl.drop_last(), runs.drop_last())
    }
}

/// The diagnostics of all runs, in order.
pub open spec fn all_diags(runs: Seq<(Mapping, Seq<Diagnostic>)>) -> Seq<Diagnostic>
    decreases runs.len(),
{
    if runs.len() == 0 {
        Seq::empty()
    } else {
        all_diags(runs.drop_last()) + runs.last().1
    }
}

/// Each run of `runs` compiles and validates the message of the same place in `sl`.
pub open spec fn runs_ok(ctx: Context, sl: Seq<(Seq<char>, int, int)>, runs: Seq<(Mapping, Seq<Diagnostic>)>, fuel: nat) -> bool {
    &&& runs.len() == sl.len()
    &&& forall|k: int| 0 <= k < runs.len() ==> message_run(ctx, sl[k].0, sl[k].1, sl[k].2, fuel, #[trigger] runs[k])
}

proof fn lemma_runs_push(
    ctx: Context,
    sl: Seq<(Seq<char>, int, int)>,
    runs: Seq<(Mapping, Seq<Diagnostic>)>,
    fuel: nat,
    x: (Seq<char>, int, int),
    run: (Mapping, Seq<Diagnostic>),
)
    requires
        runs_ok(ctx, sl, runs, fuel),
        message_run(ctx, x.0, x.1, x.2, fuel, run),
    ensures
        runs_ok(ctx, sl.push(x), runs.push(run), fuel),
        all_diags(runs.push(run)) == all_diags(runs) + run.1,
{
    let r2 = runs.push(run);
    assert(r2.drop_last() =~= runs);
    assert forall|k: int| 0 <= k < r2.len() implies message_run(ctx, sl.push(x)[k].0, sl.push(x)[k].1, sl.push(x)[k].2, fuel, #[trigger] r2[k]) by {
        if k < runs.len() {
            assert(r2[k] == runs[k]);
        }
    }
}

proof fn lemma_outputs_push(
    ctx: Context,
    out: Seq<GeneratedFile>,
    sl: Seq<(Seq<char>, int, int)>,
    runs: Seq<(Mapping, Seq<Diagnostic>)>,
    x: (Seq<char>, int, int),
    run: (Mapping, Seq<Diagnostic>),
    g: GeneratedFile,
)
    requires
        outputs_match(ctx, out, sl, runs),
        runs.len() == sl.len(),
    ensures
        !emits(run) ==> outputs_match(ctx, out, sl.push(x), runs.push(run)),
        emits(run) && g.name@ == ctx.files@[x.1].messages@[x.2].full_name@ + ".json"@ && g.mapping == run.0
            ==> outputs_match(ctx, out.push(g), sl.push(x), runs.push(run)),
{
    assert(sl.push(x).drop_last() =~= sl);
    assert(runs.push(run).drop_last() =~= runs);
    assert(out.push(g).drop_last() =~= out);
}

/// `out` and `ds` are what running the requested files of `ctx` gives, through `runs`:
/// one run per requested top-level message, each compiling and validating it.
pub open spec fn generated_by(ctx: Context, runs: Seq<(Mapping, Seq<Diagnostic>)>, out: Seq<GeneratedFile>, ds: Seq<Diagnostic>) -> bool {
    let sl = slots(ctx, ctx.files_to_generate@.len() as int);
    let fuel = message_count_spec(ctx.files@, ctx.files@.len() as int) as nat;
    &&& runs_ok(ctx, sl, runs, fuel)
    &&& outputs_match(ctx, out, sl, runs)
    &&& ds == all_diags(runs)
}

/// Runs every requested file of `ctx`. Fails with `InvalidRequest` when a requested file
/// has no descriptor. Otherwise each top-level message of each requested file is compiled
/// and validated; its mapping is emitted as `<full name>.json` when it has a property or
/// index options and the message has no error, and all diagnostics are returned in order.
#[verifier::rlimit(80)]
pub fn generate(ctx: &Context) -> (r: Result<(Vec<GeneratedFile>, Vec<Diagnostic>), Error>)
    requires
        ctx.wf(),
    ensures
        r is Ok <==> all_requested_present(*ctx),
        r matches Ok((out, ds)) ==> exists|runs: Seq<(Mapping, Seq<Diagnostic>)>| #[trigger] generated_by(*ctx, runs, out@, ds@),
{
    let fuel = message_count(ctx);
    let mut out: Vec<GeneratedFile> = Vec::new();
    let mut diagnostics: Vec<Diagnostic> = Vec::new();
    let ghost mut runs: Seq<(Mapping, Seq<Diagnostic>)> = Seq::empty();
    let ghost gfuel = fuel as nat;
    let mut j: usize = 0;
    while j < ctx.files_to_generate.len()
        invariant
            ctx.wf(),
            gfuel == message_count_spec(ctx.files@, ctx.files@.len() as int) as nat,
            gfuel == fuel as nat,
            j <= ctx.files_to_generate@.len(),
            forall|k: int| 0 <= k < j ==> file_present(ctx.files@, #[trigger] ctx.files_to_generate@[k]@),
            runs_ok(*ctx, slots(*ctx, j as int), runs, gfuel),
            outputs_match(*ctx, out@, slots(*ctx, j as int), runs),
            diagnostics@ == all_diags(runs),
        decreases ctx.files_to_generate.len() - j,
    {
        let filename = &ctx.files_to_generate[j];
        let fi = match ctx.file_index(filename.as_str()) {
            Some(fi) => fi,
            None => {
                proof {
                    assert(!file_present(ctx.files@, ctx.files_to_generate@[j as int]@));
                }
                return Err(
                    Error::InvalidRequest(String::from_str("missing descriptor for ").concat(filename.as_str())),
                );
            },
        };
        let ghost name = filename@;
        let ghost before_slots = slots(*ctx, j as int);
        proof {
            let c = file_index_spec(ctx.files@, name);
            assert(ctx.files@[fi as int].name@ == name && forall|k: int| 0 <= k < fi ==> #[trigger] ctx.files@[k].name@ != name);
            if c != fi as int {
                if c < fi {
                    assert(ctx.files@[c].name@ != name);
                } else {
                    assert(ctx.files@[fi as int].name@ != name);
                }
            }
            assert(file_index_spec(ctx.files@, name) == fi as int);
        }
        let messages = &ctx.files[fi].messages;
        let mut mi: usize = 0;
        let ghost mut cur = before_slots;
        proof {
            assert(top_level(*ctx, fi as int, 0).map_values(|x: (int, int)| (name, x.0, x.1)) =~= Seq::<(Seq<char>, int, int)>::empty());
            assert(cur =~= before_slots + top_level(*ctx, fi as int, 0).map_values(|x: (int, int)| (name, x.0, x.1)));
        }
        while mi < messages.len()
            invariant
                ctx.wf(),
                gfuel == fuel as nat,
                fi < ctx.files@.len(),
                j < ctx.files_to_generate@.len(),
                name == ctx.files_to_generate@[j as int]@,
                name == filename@,
                ctx.files@[fi as int].name@ == name,
                file_index_spec(ctx.files@, name) == fi as int,
                before_slots == slots(*ctx, j as int),
                forall|k: int| 0 <= k < j ==> file_present(ctx.files@, #[trigger] ctx.files_to_generate@[k]@),
                *messages == ctx.files@[fi as int].messages,
                mi <= messages@.len(),
                cur == before_slots + top_level(*ctx, fi as int, mi as int).map_values(|x: (int, int)| (name, x.0, x.1)),
                runs_ok(*ctx, cur, runs, gfuel),
                outputs_match(*ctx, out@, cur, runs),
                diagnostics@ == all_diags(runs),
            decreases messages.len() - mi,
        {
            let ghost next = before_slots + top_level(*ctx, fi as int, mi + 1).map_values(|x: (int, int)| (name, x.0, x.1));
            if messages[mi].parent.is_none() {
                let (mapping, mut message_diagnostics) = compile_and_validate(ctx, fi, mi, filename, fuel);
                let ghost run = (mapping, message_diagnostics@);
                let ghost x = (name, fi as int, mi as int);
                proof {
                    assert(top_level(*ctx, fi as int, mi + 1) == top_level(*ctx, fi as int, mi as int).push((fi as int, mi as int)));
                    assert(next =~= cur.push(x));
                    lemma_runs_push(*ctx, cur, runs, gfuel, x, run);
                }
                let emit = should_emit(&mapping, &message_diagnostics);
                let ghost old_out = out@;
                if emit {
                    let full = messages[mi].full_name.clone().concat(".json");
                    let g = GeneratedFile { name: full, mapping };
                    proof {
                        lemma_outputs_push(*ctx, old_out, cur, runs, x, run, g);
                    }
                    out.push(g);
                } else {
                    proof {
                        lemma_outputs_push(*ctx, old_out, cur, runs, x, run, arbitrary());
                    }
                }
                proof {
                    runs = runs.push(run);
                    cur = next;
                }
                diagnostics.append(&mut message_diagnostics);
            } else {
                proof {
                    assert(next =~= cur);
                }
            }
            mi = mi + 1;
        }
        proof {
            assert(slots(*ctx, j + 1) == cur);
            assert forall|k: int| 0 <= k < j + 1 implies file_present(ctx.files@, #[trigger] ctx.files_to_generate@[k]@) by {
                if k == j {
                    assert(ctx.files@[fi as int].name@ == ctx.files_to_generate@[k]@);
                }
            }
        }
        j = j + 1;
    }
    proof {
        assert forall|k: int| 0 <= k < ctx.files_to_generate@.len() implies file_present(ctx.files@, #[trigger] ctx.files_to_generate@[k]@) by {
            assert(k < j);
        }
        assert(generated_by(*ctx, runs, out@, diagnostics@));
    }
    let r = Ok((out, diagnostics));
    proof {
        assert(r matches Ok((o, d)) && generated_by(*ctx, runs, o@, d@));
    }
    r
}

proof fn lemma_has_error_view(ds: Seq<Diagnostic>)
    ensures
        has_error_spec(ds) <==> exists|i: int| 0 <= i < ds.len() && (#[trigger] diags_view(ds)[i]).severity == Severity::Error,
{
    if has_error_spec(ds) {
        let i = choose|i: int| 0 <= i < ds.len() && (#[trigger] ds[i]).severity == Severity::Error;
        assert(diags_view(ds)[i].severity == Severity::Error);
    }
    if exists|i: int| 0 <= i < ds.len() && (#[trigger] diags_view(ds)[i]).severity == Severity::Error {
        let i = choose|i: int| 0 <= i < ds.len() && (#[trigger] diags_view(ds)[i]).severity == Severity::Error;
        assert(ds[i].severity == Severity::Error);
    }
}

/// Two runs of one message agree: mappings, diagnostics and whether they emit.
proof fn lemma_run_same(ctx: Context, file: Seq<char>, fi: int, mi: int, fuel: nat, r1: (Mapping, Seq<Diagnostic>), r2: (Mapping, Seq<Diagnostic>))
    requires
        message_run(ctx, file, fi, mi, fuel, r1),
        message_run(ctx, file, fi, mi, fuel, r2),
    ensures
        same_mapping(r1.0, r2.0, fuel),
        diags_view(r1.1) == diags_view(r2.1),
        emits(r1) == emits(r2),
{
    let anc = seq![(fi as usize, mi as usize)];
    lemma_compiled_unique(ctx, fi, mi, anc, fuel, r1.0, r2.0);
    let cd = compile_diags(ctx, fi, mi, anc, fuel, file, field_count(ctx, fi, mi));
    let n = cd.len() as int;
    lemma_entries_same(ctx, file, fi, mi, r1.0.properties@, r2.0.properties@, r1.0.properties@.len() as int, fuel);
    assert(r1.0.properties@.len() == r1.0.names().len() && r2.0.properties@.len() == r2.0.names().len());
    assert(diags_view(r1.1) =~= diags_view(r1.1.take(n)) + diags_view(r1.1.skip(n)));
    assert(diags_view(r2.1) =~= diags_view(r2.1.take(n)) + diags_view(r2.1.skip(n)));
    lemma_has_error_view(r1.1);
    lemma_has_error_view(r2.1);
    assert(diags_view(r1.1).len() == r1.1.len() && diags_view(r2.1).len() == r2.1.len());
}

proof fn lemma_outputs_same(
    ctx: Context,
    sl: Seq<(Seq<char>, int, int)>,
    runs1: Seq<(Mapping, Seq<Diagnostic>)>,
    runs2: Seq<(Mapping, Seq<Diagnostic>)>,
    out1: Seq<GeneratedFile>,
    out2: Seq<GeneratedFile>,
    fuel: nat,
)
    requires
        runs_ok(ctx, sl, runs1, fuel),
        runs_ok(ctx, sl, runs2, fuel),
        outputs_match(ctx, out1, sl, runs1),
        outputs_match(ctx, out2, sl, runs2),
    ensures
        out1.len() == out2.len(),
        forall|g: int| 0 <= g < out1.len() ==> (#[trigger] out1[g]).name@ == out2[g].name@ && same_mapping(out1[g].mapping, out2[g].mapping, fuel),
        diags_view(all_diags(runs1)) == diags_view(all_diags(runs2)),
    decreases sl.len(),
{
    if sl.len() > 0 {
        let k = sl.len() - 1;
        assert(message_run(ctx, sl[k].0, sl[k].1, sl[k].2, fuel, runs1[k]));
        assert(message_run(ctx, sl[k].0, sl[k].1, sl[k].2, fuel, runs2[k]));
        lemma_run_same(ctx, sl[k].0, sl[k].1, sl[k].2, fuel, runs1[k], runs2[k]);
        let s0 = sl.drop_last();
        let a = runs1.drop_last();
        let b = runs2.drop_last();
        assert forall|i: int| 0 <= i < a.len() implies message_run(ctx, s0[i].0, s0[i].1, s0[i].2, fuel, #[trigger] a[i]) by {
            assert(a[i] == runs1[i]);
        }
        assert forall|i: int| 0 <= i < b.len() implies message_run(ctx, s0[i].0, s0[i].1, s0[i].2, fuel, #[trigger] b[i]) by {
            assert(b[i] == runs2[i]);
        }
        assert(diags_view(all_diags(runs1)) =~= diags_view(all_diags(a)) + diags_view(runs1.last().1));
        assert(diags_view(all_diags(runs2)) =~= diags_view(all_diags(b)) + diags_view(runs2.last().1));
        if emits(runs1.last()) {
            lemma_outputs_same(ctx, s0, a, b, out1.drop_last(), out2.drop_last(), fuel);
            assert forall|g: int| 0 <= g < out1.len() implies (#[trigger] out1[g]).name@ == out2[g].name@ && same_mapping(out1[g].mapping, out2[g].mapping, fuel) by {
                if g < out1.len() - 1 {
                    assert(out1[g] == out1.drop_last()[g]);
                    assert(out2[g] == out2.drop_last()[g]);
                }
            }
        } else {
            lemma_outputs_same(ctx, s0, a, b, out1, out2, fuel);
        }
    }
}

/// Generating twice from one context gives the same outputs, in the same order, with
/// the same names and mappings that agree on every name, parameter, index option and
/// nested property, and the same diagnostics in the same order.
pub proof fn lemma_generate_deterministic(
    ctx: Context,
    runs1: Seq<(Mapping, Seq<Diagnostic>)>,
    out1: Seq<GeneratedFile>,
    ds1: Seq<Diagnostic>,
    runs2: Seq<(Mapping, Seq<Diagnostic>)>,
    out2: Seq<GeneratedFile>,
    ds2: Seq<Diagnostic>,
)
    requires
        generated_by(ctx, runs1, out1, ds1),
        generated_by(ctx, runs2, out2, ds2),
    ensures
        out1.len() == out2.len(),
        forall|g: int| 0 <= g < out1.len() ==> (#[trigger] out1[g]).name@ == out2[g].name@ && same_mapping(
            out1[g].mapping,
            out2[g].mapping,
            message_count_spec(ctx.files@, ctx.files@.len() as int) as nat,
        ),
        diags_view(ds1) == diags_view(ds2),
{
    lemma_outputs_same(
        ctx,
        slots(ctx, ctx.files_to_generate@.len() as int),
        runs1,
        runs2,
        out1,
        out2,
        message_count_spec(ctx.files@, ctx.files@.len() as int) as nat,
    );
}

/// The result of `process`: some context of the request produces `out` and `ds`.
pub open spec fn processed(
    files: Seq<FileDescriptor>,
    files_to_generate: Seq<String>,
    parameter: Seq<char>,
    c: Context,
    out: Seq<GeneratedFile>,
    ds: Seq<Diagnostic>,
) -> bool {
    &&& c.files@ == files
    &&& c.files_to_generate@ == files_to_generate
    &&& config_spec(parameter) == Some(opt_str_view(c.target))
    &&& c.wf()
    &&& exists|runs: Seq<(Mapping, Seq<Diagnostic>)>| #[trigger] generated_by(c, runs, out, ds)
}

/// Processes a request: indexes `files`, parses `parameter`, and runs every file named in
/// `files_to_generate` as `generate` does. Fails with `InvalidRequest` when the parameter
/// holds an unknown key, when the descriptor set is malformed or lacks the annotation
/// message type, or when a requested file has no descriptor.
pub fn process(files: Vec<FileDescriptor>, files_to_generate: Vec<String>, parameter: &str) -> (r: Result<
    (Vec<GeneratedFile>, Vec<Diagnostic>),
    Error,
>)
    ensures
        r is Ok <==> {
            &&& config_spec(parameter@) is Some
            &&& files_wf(files@)
            &&& has_annotation_message(files@)
            &&& forall|j: int| 0 <= j < files_to_generate@.len() ==> file_present(files@, #[trigger] files_to_generate@[j]@)
        },
        r matches Ok((out, ds)) ==> exists|c: Context| #[trigger] processed(files@, files_to_generate@, parameter@, c, out@, ds@),
{
    let ghost fs = files@;
    let ghost ftg = files_to_generate@;
    let ctx = match Context::new(files, files_to_generate, parameter) {
        Ok(c) => c,
        Err(e) => return Err(e),
    };
    let r = generate(&ctx);
    proof {
        assert(ctx.files@ == fs && ctx.files_to_generate@ == ftg);
        if r is Ok {
            assert(processed(fs, ftg, parameter@, ctx, r->Ok_0.0@, r->Ok_0.1@));
        }
    }
    r
}

} // verus!
