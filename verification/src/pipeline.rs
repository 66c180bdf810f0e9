//! The scaffold pipeline's decision logic: the phase machine, the per-file
//! error-recovery policy, the deterministic walk order, and the walk step
//! that renders each readable file and applies the policy to the rest.

use vstd::multiset::Multiset;
use vstd::prelude::*;

use crate::errors::ProjectInitError;
use crate::errors::RenderError;
use crate::render::render_spec;
use crate::render::ValueEnv;
use crate::text::find_first;
use crate::text::scan_first;
use crate::text::to_chars;

verus! {

/// The step a scaffold run is at.
#[derive(Clone, Copy, Debug, PartialEq, Eq, Structural)]
pub enum ScaffoldPhase {
    /// Resolving the reference to a clone URL.
    Resolving,
    /// Cloning the template repository.
    Cloning,
    /// Looking for and parsing the embedded schema file.
    SchemaCheck,
    /// Asking the schema's questions.
    Prompting,
    /// Visiting and rendering the template's files.
    Walking,
    /// Removing the scaffold-only schema file.
    Cleanup,
    /// The run finished; rendered files are on disk.
    Done,
    /// The run stopped on a hard error.
    Failed,
}

/// The phase that follows `p` when its step succeeds (`ok`) or reports a
/// hard error: the chain resolve, clone, schema check, prompt, walk,
/// cleanup, done; a hard error is terminal — except during cleanup, whose
/// failure is only a warning, the scaffold's contract being already met.
pub open spec fn phase_after(p: ScaffoldPhase, ok: bool) -> ScaffoldPhase {
    match p {
        ScaffoldPhase::Resolving => if ok {
            ScaffoldPhase::Cloning
        } else {
            ScaffoldPhase::Failed
        },
        ScaffoldPhase::Cloning => if ok {
            ScaffoldPhase::SchemaCheck
        } else {
            ScaffoldPhase::Failed
        },
        ScaffoldPhase::SchemaCheck => if ok {
            ScaffoldPhase::Prompting
        } else {
            ScaffoldPhase::Failed
        },
        ScaffoldPhase::Prompting => if ok {
            ScaffoldPhase::Walking
        } else {
            ScaffoldPhase::Failed
        },
        ScaffoldPhase::Walking => if ok {
            ScaffoldPhase::Cleanup
        } else {
            ScaffoldPhase::Failed
        },
        ScaffoldPhase::Cleanup => ScaffoldPhase::Done,
        ScaffoldPhase::Done => ScaffoldPhase::Done,
        ScaffoldPhase::Failed => ScaffoldPhase::Failed,
    }
}

/// Advances the pipeline one step, as `phase_after` describes it.
pub fn advance(p: ScaffoldPhase, ok: bool) -> (r: ScaffoldPhase)
    ensures
        r == phase_after(p, ok),
{
    match p {
        ScaffoldPhase::Resolving => if ok {
            ScaffoldPhase::Cloning
        } else {
            ScaffoldPhase::Failed
        },
        ScaffoldPhase::Cloning => if ok {
            ScaffoldPhase::SchemaCheck
        } else {
            ScaffoldPhase::Failed
        },
        ScaffoldPhase::SchemaCheck => if ok {
            ScaffoldPhase::Prompting
        } else {
            ScaffoldPhase::Failed
        },
        ScaffoldPhase::Prompting => if ok {
            ScaffoldPhase::Walking
        } else {
            ScaffoldPhase::Failed
        },
        ScaffoldPhase::Walking => if ok {
            ScaffoldPhase::Cleanup
        } else {
            ScaffoldPhase::Failed
        },
        ScaffoldPhase::Cleanup => ScaffoldPhase::Done,
        ScaffoldPhase::Done => ScaffoldPhase::Done,
        ScaffoldPhase::Failed => ScaffoldPhase::Failed,
    }
}

/// The failure a clone's reported error text denotes: a missing repository
/// where the remote's message says so, a generic clone failure otherwise —
/// the distinction gives the user actionable feedback.
pub fn classify_clone_error(message: &str) -> (r: ProjectInitError)
    ensures
        find_first(message@, "not found"@) is Some ==> r is GitRepoNotFound,
        find_first(message@, "not found"@) is None ==> r is GitCloneFail,
{
    let chars = to_chars(message);
    let pat = to_chars("not found");
    proof {
        reveal_strlit("not found");
    }
    match scan_first(&chars, &pat) {
        Some(_) => ProjectInitError::GitRepoNotFound,
        None => ProjectInitError::GitCloneFail,
    }
}

/// What the user may choose when a file read fails.
#[derive(Clone, Copy, Debug, PartialEq, Eq, Structural)]
pub enum ReadFailureChoice {
    /// Skip this file only.
    SkipOnce,
    /// Skip this file and every later read failure, silently.
    SkipAll,
    /// Stop the run; the read failure becomes its terminal error.
    Abort,
}

/// What the walk does with a file whose read failed.
#[derive(Clone, Copy, Debug, PartialEq, Eq, Structural)]
pub enum FileAction {
    /// Leave the file untouched and continue.
    Skip,
    /// Stop the walk.
    Abort,
}

/// The per-run error-recovery policy: whether read failures are being
/// skipped without asking.
#[derive(Clone, Copy, Debug, PartialEq, Eq, Structural)]
pub struct ErrorPolicy {
    /// Set once the user chooses to skip all future read failures.
    pub skip_all: bool,
}

impl ErrorPolicy {
    /// The policy at the start of a run: every read failure prompts.
    pub fn new() -> (r: ErrorPolicy)
        ensures
            !r.skip_all,
    {
        ErrorPolicy { skip_all: false }
    }

    /// Whether a read failure needs the user's choice: it does unless
    /// skip-all is already in force, in which case the file is skipped
    /// silently.
    pub fn needs_prompt(&self) -> (r: bool)
        ensures
            r == !self.skip_all,
    {
        !self.skip_all
    }

    /// Applies the user's choice to one read failure: aborting aborts,
    /// either skip choice skips, and choosing skip-all arms the policy for
    /// every later failure.
    pub fn apply_choice(&mut self, choice: ReadFailureChoice) -> (r: FileAction)
        ensures
            r is Abort <==> choice is Abort,
            final(self).skip_all == (old(self).skip_all || choice is SkipAll),
    {
        match choice {
            ReadFailureChoice::SkipOnce => FileAction::Skip,
            ReadFailureChoice::SkipAll => {
                self.skip_all = true;
                FileAction::Skip
            },
            ReadFailureChoice::Abort => FileAction::Abort,
        }
    }
}

/// Lexicographic order on character sequences, by code point.
pub open spec fn lex_le(a: Seq<char>, b: Seq<char>) -> bool
    decreases a.len(),
{
    if a.len() == 0 {
        true
    } else if b.len() == 0 {
        false
    } else if (a[0] as u32) == (b[0] as u32) {
        lex_le(a.skip(1), b.skip(1))
    } else {
        (a[0] as u32) < (b[0] as u32)
    }
}

/// `lex_le` is total.
pub proof fn lemma_lex_le_total(a: Seq<char>, b: Seq<char>)
    ensures
        lex_le(a, b) || lex_le(b, a),
    decreases a.len(),
{
    if a.len() == 0 {
    } else if b.len() == 0 {
    } else if (a[0] as u32) == (b[0] as u32) {
        lemma_lex_le_total(a.skip(1), b.skip(1));
    } else {
    }
}

/// `lex_le` is transitive.
pub proof fn lemma_lex_le_trans(a: Seq<char>, b: Seq<char>, c: Seq<char>)
    requires
        lex_le(a, b),
        lex_le(b, c),
    ensures
        lex_le(a, c),
    decreases a.len(),
{
    if a.len() == 0 {
    } else {
        assert(b.len() > 0);
        assert(c.len() > 0);
        if (a[0] as u32) == (b[0] as u32) {
            if (b[0] as u32) == (c[0] as u32) {
                lemma_lex_le_trans(a.skip(1), b.skip(1), c.skip(1));
            }
        } else {
        }
    }
}

/// Whether `a` comes at or before `b` in walk order, as `lex_le` describes
/// it.
pub fn lex_le_chars(a: &Vec<char>, b: &Vec<char>) -> (r: bool)
    ensures
        r == lex_le(a@, b@),
{
    let na = a.len();
    let nb = b.len();
    let mut i: usize = 0;
    proof {
        assert(a@.skip(0) =~= a@);
        assert(b@.skip(0) =~= b@);
    }
    while i < na && i < nb
        invariant
            na == a@.len(),
            nb == b@.len(),
            i <= na,
            i <= nb,
            lex_le(a@, b@) == lex_le(a@.skip(i as int), b@.skip(i as int)),
        decreases na - i,
    {
        proof {
            assert(a@.skip(i as int)[0] == a@[i as int]);
            assert(b@.skip(i as int)[0] == b@[i as int]);
        }
        let ac = a[i] as u32;
        let bc = b[i] as u32;
        if ac == bc {
            proof {
                assert(a@.skip(i as int).skip(1) =~= a@.skip(i + 1));
                assert(b@.skip(i as int).skip(1) =~= b@.skip(i + 1));
            }
            i = i + 1;
        } else {
            return ac < bc;
        }
    }
    proof {
        if i == na {
            assert(a@.skip(i as int).len() == 0);
        } else {
            assert(b@.skip(i as int).len() == 0);
            assert(a@.skip(i as int).len() > 0);
        }
    }
    na <= nb
}

/// The walk visits paths in nondecreasing lexicographic order.
pub open spec fn sorted_paths(s: Seq<String>) -> bool {
    forall|i: int, j: int| 0 <= i < j < s.len() ==> lex_le(s[i]@, s[j]@)
}

/// Inserts `p` into the sorted vector `v`, keeping it sorted; the contents
/// gain exactly `p`.
fn insert_sorted(v: &mut Vec<String>, p: String)
    requires
        sorted_paths(old(v)@),
    ensures
        sorted_paths(final(v)@),
        final(v)@.to_multiset() == old(v)@.to_multiset().insert(p),
{
    let pc = to_chars(p.as_str());
    let n = v.len();
    let mut idx: usize = 0;
    loop
        invariant
            sorted_paths(v@),
            n == v@.len(),
            idx <= n,
            pc@ == p@,
            forall|k: int| 0 <= k < idx ==> lex_le(v@[k]@, p@),
        ensures
            idx <= n,
            forall|k: int| 0 <= k < idx ==> lex_le(v@[k]@, p@),
            idx < n ==> lex_le(p@, v@[idx as int]@),
        decreases n - idx,
    {
        if idx >= n {
            break ;
        }
        let vi = to_chars(v[idx].as_str());
        if lex_le_chars(&vi, &pc) {
            idx = idx + 1;
        } else {
            proof {
                lemma_lex_le_total(v@[idx as int]@, p@);
            }
            break ;
        }
    }
    let ghost before = v@;
    v.insert(idx, p);
    proof {
        let after = v@;
        assert(after =~= before.take(idx as int) + seq![p] + before.skip(idx as int));
        assert forall|x: int, y: int| 0 <= x < y < after.len() implies lex_le(
            after[x]@,
            after[y]@,
        ) by {
            if y < idx {
                assert(after[x] == before[x]);
                assert(after[y] == before[y]);
            } else if x < idx && y == idx {
                assert(after[x] == before[x]);
                assert(after[y] == p);
                assert(lex_le(before[x]@, p@));
            } else if x < idx && y > idx {
                assert(after[x] == before[x]);
                assert(after[y] == before[y - 1]);
                assert(lex_le(before[x]@, before[y - 1]@));
            } else if x == idx {
                assert(after[x] == p);
                assert(after[y] == before[y - 1]);
                assert(y - 1 >= idx);
                assert(lex_le(p@, before[idx as int]@));
                if y - 1 > idx {
                    assert(lex_le(before[idx as int]@, before[y - 1]@));
                    lemma_lex_le_trans(p@, before[idx as int]@, before[y - 1]@);
                }
            } else {
                assert(x > idx && y > idx);
                assert(after[x] == before[x - 1]);
                assert(after[y] == before[y - 1]);
                assert(lex_le(before[x - 1]@, before[y - 1]@));
            }
        }
        broadcast use vstd::seq_lib::group_to_multiset_ensures;

        vstd::seq_lib::lemma_multiset_commutative(before.take(idx as int), before.skip(idx as int));
        vstd::seq_lib::lemma_multiset_commutative(
            before.take(idx as int) + seq![p],
            before.skip(idx as int),
        );
        vstd::seq_lib::lemma_multiset_commutative(before.take(idx as int), seq![p]);
        assert(before.take(idx as int) + before.skip(idx as int) =~= before);
        assert(seq![p] =~= Seq::<String>::empty().push(p));
        assert(seq![p].to_multiset() =~= Multiset::<String>::empty().insert(p));
        assert(after.to_multiset() =~= before.to_multiset().insert(p));
    }
}

/// Sorts the walk's paths into the deterministic visiting order:
/// nondecreasing lexicographic order, with exactly the given paths —
/// determinism makes a run reproducible for the same template and answers.
pub fn sort_paths(paths: Vec<String>) -> (r: Vec<String>)
    ensures
        sorted_paths(r@),
        r@.to_multiset() == paths@.to_multiset(),
        r@.len() == paths@.len(),
{
    let mut rest = paths;
    let mut out: Vec<String> = Vec::new();
    proof {
        broadcast use vstd::seq_lib::group_to_multiset_ensures;

        assert(out@.to_multiset() =~= Multiset::<String>::empty());
    }
    loop
        invariant
            sorted_paths(out@),
            out@.to_multiset().add(rest@.to_multiset()) == paths@.to_multiset(),
            out@.len() + rest@.len() == paths@.len(),
        decreases rest@.len(),
    {
        let ghost rest_before = rest@;
        let ghost out_before = out@;
        match rest.pop() {
            Some(p) => {
                proof {
                    broadcast use vstd::seq_lib::group_to_multiset_ensures;

                    assert(rest_before =~= rest@.push(p));
                    assert(rest_before.to_multiset() =~= rest@.to_multiset().insert(p));
                }
                insert_sorted(&mut out, p);
                proof {
                    broadcast use vstd::seq_lib::group_to_multiset_ensures;

                    assert(out@.to_multiset() =~= out_before.to_multiset().insert(p));
                    assert(out@.to_multiset().add(rest@.to_multiset()) =~= paths@.to_multiset());
                    assert(out@.len() == out@.to_multiset().len());
                    assert(out_before.len() == out_before.to_multiset().len());
                }
            },
            None => {
                proof {
                    broadcast use vstd::seq_lib::group_to_multiset_ensures;

                    assert(rest@.to_multiset() =~= Multiset::<String>::empty());
                    assert(out@.to_multiset() =~= paths@.to_multiset());
                }
                return out;
            },
        }
    }
}

/// One file of the walk: its path and the outcome of reading it.
#[derive(Debug)]
pub struct FileEntry {
    /// The file's path, relative to the template root.
    pub path: String,
    /// The file's text, or `None` when the read failed.
    pub content: Option<String>,
}

/// One rendered file: its path and the text to write back over it.
#[derive(Debug)]
pub struct RenderedFile {
    /// The file's path, relative to the template root.
    pub path: String,
    /// The rendered text.
    pub text: String,
}

/// How a walk ended, mathematical form.
#[verifier::ext_equal]
pub enum WalkEndView {
    /// Every file was rendered or skipped.
    Completed,
    /// The user chose to abort on this file's read failure.
    Aborted(Seq<char>),
    /// Rendering this file failed, with this error.
    RenderFailed(Seq<char>, RenderError),
}

/// How a walk ended.
#[derive(Debug)]
pub enum WalkEnd {
    /// Every file was rendered or skipped.
    Completed,
    /// The user chose to abort on this file's read failure; the failure
    /// propagates as the run's terminal error, naming the file.
    Aborted(String),
    /// Rendering this file failed; always fatal, since it indicates a
    /// broken template.
    RenderFailed(String, RenderError),
}

impl View for WalkEnd {
    type V = WalkEndView;

    open spec fn view(&self) -> WalkEndView {
        match self {
            WalkEnd::Completed => WalkEndView::Completed,
            WalkEnd::Aborted(p) => WalkEndView::Aborted(p@),
            WalkEnd::RenderFailed(p, e) => WalkEndView::RenderFailed(p@, *e),
        }
    }
}

/// Everything one walk produced, mathematical form.
#[verifier::ext_equal]
pub struct WalkView {
    /// Path and rendered text of each rendered file, in visiting order.
    pub rendered: Seq<(Seq<char>, Seq<char>)>,
    /// Paths left untouched because their read failed and was skipped.
    pub skipped: Seq<Seq<char>>,
    /// How the walk ended.
    pub outcome: WalkEndView,
    /// The error policy's state when the walk ended.
    pub skip_all: bool,
}

/// Everything one walk produced.
pub struct WalkResult {
    /// Each rendered file, in visiting order; the caller writes these back.
    pub rendered: Vec<RenderedFile>,
    /// Paths left untouched because their read failed and was skipped.
    pub skipped: Vec<String>,
    /// How the walk ended.
    pub outcome: WalkEnd,
}

/// What the walk step produces: files are visited in the given order; a
/// readable file is rendered, and the first render failure ends the walk
/// fatally. A file whose read failed is skipped silently under skip-all;
/// otherwise the next scripted choice is consumed — skip once, skip all
/// (arming the policy), or abort, which ends the walk with that file's
/// read failure; a walk that needs a choice when none is left aborts too.
pub open spec fn walk_spec(
    files: Seq<FileEntry>,
    env: ValueEnv,
    skip_all: bool,
    choices: Seq<ReadFailureChoice>,
) -> WalkView
    decreases files.len(),
{
    if files.len() == 0 {
        WalkView {
            rendered: Seq::empty(),
            skipped: Seq::empty(),
            outcome: WalkEndView::Completed,
            skip_all,
        }
    } else {
        let f = files[0];
        match f.content {
            Some(text) => match render_spec(text@, env) {
                Ok(t) => {
                    let rest = walk_spec(files.skip(1), env, skip_all, choices);
                    WalkView {
                        rendered: seq![(f.path@, t)] + rest.rendered,
                        skipped: rest.skipped,
                        outcome: rest.outcome,
                        skip_all: rest.skip_all,
                    }
                },
                Err(e) => WalkView {
                    rendered: Seq::empty(),
                    skipped: Seq::empty(),
                    outcome: WalkEndView::RenderFailed(f.path@, e),
                    skip_all,
                },
            },
            None => {
                if skip_all {
                    let rest = walk_spec(files.skip(1), env, true, choices);
                    WalkView {
                        rendered: rest.rendered,
                        skipped: seq![f.path@] + rest.skipped,
                        outcome: rest.outcome,
                        skip_all: rest.skip_all,
                    }
                } else if choices.len() == 0 {
                    WalkView {
                        rendered: Seq::empty(),
                        skipped: Seq::empty(),
                        outcome: WalkEndView::Aborted(f.path@),
                        skip_all,
                    }
                } else {
                    match choices[0] {
                        ReadFailureChoice::Abort => WalkView {
                            rendered: Seq::empty(),
                            skipped: Seq::empty(),
                            outcome: WalkEndView::Aborted(f.path@),
                            skip_all,
                        },
                        ReadFailureChoice::SkipOnce => {
                            let rest = walk_spec(files.skip(1), env, false, choices.skip(1));
                            WalkView {
                                rendered: rest.rendered,
                                skipped: seq![f.path@] + rest.skipped,
                                outcome: rest.outcome,
                                skip_all: rest.skip_all,
                            }
                        },
                        ReadFailureChoice::SkipAll => {
                            let rest = walk_spec(files.skip(1), env, true, choices.skip(1));
                            WalkView {
                                rendered: rest.rendered,
                                skipped: seq![f.path@] + rest.skipped,
                                outcome: rest.outcome,
                                skip_all: rest.skip_all,
                            }
                        },
                    }
                }
            },
        }
    }
}

/// Runs the walk step over the files, in order, as `walk_spec` describes
/// it: `choices` scripts the user's answers to the read-failure prompts,
/// one consumed per prompt. Files are rendered only; writing them back —
/// where a failure is always fatal — is the caller's step.
pub fn run_walk(
    files: &Vec<FileEntry>,
    env: &ValueEnv,
    policy: &mut ErrorPolicy,
    choices: &Vec<ReadFailureChoice>,
) -> (r: WalkResult)
    requires
        env.wf(),
    ensures
        ({
            let w = walk_spec(files@, *env, old(policy).skip_all, choices@);
            r.rendered@.map_values(|rf: RenderedFile| (rf.path@, rf.text@)) == w.rendered
                && r.skipped@.map_values(|s: String| s@) == w.skipped && r.outcome@ == w.outcome
                && final(policy).skip_all == w.skip_all
        }),
{
    let ghost full = walk_spec(files@, *env, policy.skip_all, choices@);
    let ghost rmap = |rf: RenderedFile| (rf.path@, rf.text@);
    let ghost smap = |s2: String| s2@;
    let n = files.len();
    let mut rendered: Vec<RenderedFile> = Vec::new();
    let mut skipped: Vec<String> = Vec::new();
    let mut i: usize = 0;
    let mut ci: usize = 0;
    proof {
        assert(files@.skip(0) =~= files@);
        assert(choices@.skip(0) =~= choices@);
        assert(rendered@.map_values(rmap) =~= Seq::<(Seq<char>, Seq<char>)>::empty());
        assert(skipped@.map_values(smap) =~= Seq::<Seq<char>>::empty());
        let cur = walk_spec(files@.skip(0), *env, policy.skip_all, choices@.skip(0));
        assert(full.rendered =~= rendered@.map_values(rmap) + cur.rendered);
        assert(full.skipped =~= skipped@.map_values(smap) + cur.skipped);
    }
    while i < n
        invariant
            env.wf(),
            n == files@.len(),
            i <= n,
            ci <= choices@.len(),
            rmap == (|rf: RenderedFile| (rf.path@, rf.text@)),
            smap == (|s2: String| s2@),
            full == walk_spec(files@, *env, old(policy).skip_all, choices@),
            ({
                let cur = walk_spec(
                    files@.skip(i as int),
                    *env,
                    policy.skip_all,
                    choices@.skip(ci as int),
                );
                full.rendered == rendered@.map_values(rmap) + cur.rendered && full.skipped
                    == skipped@.map_values(smap) + cur.skipped && full.outcome == cur.outcome
                    && full.skip_all == cur.skip_all
            }),
        decreases n - i,
    {
        let ghost cur = walk_spec(
            files@.skip(i as int),
            *env,
            policy.skip_all,
            choices@.skip(ci as int),
        );
        proof {
            assert(files@.skip(i as int)[0] == files@[i as int]);
            assert(files@.skip(i as int).skip(1) =~= files@.skip(i + 1));
        }
        let f = &files[i];
        match &f.content {
            Some(text) => {
                match crate::render::render(text.as_str(), env) {
                    Ok(t) => {
                        let ghost rest = walk_spec(
                            files@.skip(i + 1),
                            *env,
                            policy.skip_all,
                            choices@.skip(ci as int),
                        );
                        let ghost prev = rendered@;
                        rendered.push(RenderedFile { path: f.path.clone(), text: t });
                        proof {
                            assert(cur.rendered == seq![(files@[i as int].path@, t@)]
                                + rest.rendered);
                            assert(rendered@.map_values(rmap) =~= prev.map_values(rmap).push(
                                (files@[i as int].path@, t@),
                            ));
                            assert(full.rendered =~= rendered@.map_values(rmap) + rest.rendered);
                        }
                    },
                    Err(e) => {
                        proof {
                            assert(cur.rendered =~= Seq::<(Seq<char>, Seq<char>)>::empty());
                            assert(cur.skipped =~= Seq::<Seq<char>>::empty());
                            assert(full.rendered =~= rendered@.map_values(rmap));
                            assert(full.skipped =~= skipped@.map_values(smap));
                        }
                        return WalkResult {
                            rendered,
                            skipped,
                            outcome: WalkEnd::RenderFailed(f.path.clone(), e),
                        };
                    },
                }
            },
            None => {
                if policy.needs_prompt() {
                    if ci < choices.len() {
                        proof {
                            assert(choices@.skip(ci as int)[0] == choices@[ci as int]);
                            assert(choices@.skip(ci as int).skip(1) =~= choices@.skip(ci + 1));
                        }
                        let c = choices[ci];
                        ci = ci + 1;
                        match policy.apply_choice(c) {
                            FileAction::Skip => {
                                let ghost rest = walk_spec(
                                    files@.skip(i + 1),
                                    *env,
                                    policy.skip_all,
                                    choices@.skip(ci as int),
                                );
                                let ghost prev = skipped@;
                                skipped.push(f.path.clone());
                                proof {
                                    assert(cur.skipped == seq![files@[i as int].path@]
                                        + rest.skipped);
                                    assert(skipped@.map_values(smap) =~= prev.map_values(
                                        smap,
                                    ).push(files@[i as int].path@));
                                    assert(full.skipped =~= skipped@.map_values(smap)
                                        + rest.skipped);
                                }
                            },
                            FileAction::Abort => {
                                proof {
                                    assert(cur.rendered =~= Seq::<(Seq<char>, Seq<char>)>::empty());
                                    assert(cur.skipped =~= Seq::<Seq<char>>::empty());
                                    assert(full.rendered =~= rendered@.map_values(rmap));
                                    assert(full.skipped =~= skipped@.map_values(smap));
                                }
                                return WalkResult {
                                    rendered,
                                    skipped,
                                    outcome: WalkEnd::Aborted(f.path.clone()),
                                };
                            },
                        }
                    } else {
                        proof {
                            assert(choices@.skip(ci as int).len() == 0);
                            assert(cur.rendered =~= Seq::<(Seq<char>, Seq<char>)>::empty());
                            assert(cur.skipped =~= Seq::<Seq<char>>::empty());
                            assert(full.rendered =~= rendered@.map_values(rmap));
                            assert(full.skipped =~= skipped@.map_values(smap));
                        }
                        return WalkResult {
                            rendered,
                            skipped,
                            outcome: WalkEnd::Aborted(f.path.clone()),
                        };
                    }
                } else {
                    let ghost rest = walk_spec(
                        files@.skip(i + 1),
                        *env,
                        policy.skip_all,
                        choices@.skip(ci as int),
                    );
                    let ghost prev = skipped@;
                    skipped.push(f.path.clone());
                    proof {
                        assert(cur.skipped == seq![files@[i as int].path@] + rest.skipped);
                        assert(skipped@.map_values(smap) =~= prev.map_values(smap).push(
                            files@[i as int].path@,
                        ));
                        assert(full.skipped =~= skipped@.map_values(smap) + rest.skipped);
                    }
                }
            },
        }
        i = i + 1;
    }
    proof {
        assert(files@.skip(n as int).len() == 0);
        let cur = walk_spec(files@.skip(n as int), *env, policy.skip_all, choices@.skip(ci as int));
        assert(full.rendered =~= rendered@.map_values(rmap));
        assert(full.skipped =~= skipped@.map_values(smap));
    }
    WalkResult { rendered, skipped, outcome: WalkEnd::Completed }
}

} // verus!
