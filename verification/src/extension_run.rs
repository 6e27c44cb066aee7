//! An export of extensions, step by step.

use vstd::prelude::*;

use crate::export::{self, any_failed, LIST_FAILED};
use crate::strmap::{string_values, StrMap};
use crate::text;

verus! {

/// Where an export of extensions stands.
#[derive(Debug, Clone, Copy, PartialEq, Eq, Structural)]
pub enum ExtStage {
    CleanAll,
    MakeDir,
    Remove,
    Prepare,
    Run,
    Copy,
    Save,
    Finished,
}

/// What an export of extensions asks for next.
#[derive(Debug)]
pub enum ExtAction {
    /// Remove the directory of extensions and, where `copies` is set, that of
    /// their binary copies, where they are there. Only a directory of
    /// extensions that cannot be removed is a failure.
    CleanAll { copies: bool },
    /// Make the directory of extensions.
    MakeDir,
    /// Remove the directory of an extension that is gone and, where `copy` is
    /// set, its binary copy. A failure does not count.
    Remove { name: String, copy: bool },
    /// Make an empty directory for an extension.
    Prepare(String),
    /// Run `ibcmd` for an extension.
    Run(String),
    /// Make the binary copy of an extension. A failure does not count.
    Copy(String),
    /// Keep these hashes. A failure does not count.
    Save(StrMap<String>),
    /// The export is over; its results are there.
    Finish,
}

/// An export of extensions.
#[derive(Debug)]
pub struct ExtensionRun {
    /// The extensions of the base, with their hashes.
    pub current: Vec<(String, String)>,
    /// The hashes that were kept.
    pub last: StrMap<String>,
    pub to_export: Vec<String>,
    pub to_remove: Vec<String>,
    /// Whether binary copies are kept.
    pub copies: bool,
    pub stage: ExtStage,
    /// The extension that is dealt with.
    pub at: usize,
    /// The extensions that were dealt with, and whether they were exported.
    pub results: StrMap<bool>,
}

/// Where an export of extensions stands, and what came of it so far.
#[verifier::ext_equal]
pub struct RunState {
    pub stage: ExtStage,
    pub at: int,
    pub results: Map<Seq<char>, bool>,
}

/// Goes on with the extensions to export, from `i` on.
pub open spec fn enter_export(
    to_export: Seq<Seq<char>>,
    i: int,
    results: Map<Seq<char>, bool>,
) -> RunState {
    if i < to_export.len() {
        RunState { stage: ExtStage::Prepare, at: i, results }
    } else {
        RunState { stage: ExtStage::Save, at: 0, results }
    }
}

/// Goes on with the extensions to remove, from `i` on.
pub open spec fn enter_remove(
    to_remove: Seq<Seq<char>>,
    to_export: Seq<Seq<char>>,
    i: int,
    results: Map<Seq<char>, bool>,
) -> RunState {
    if i < to_remove.len() {
        RunState { stage: ExtStage::Remove, at: i, results }
    } else {
        enter_export(to_export, 0, results)
    }
}

/// What follows from whether the last action succeeded.
pub open spec fn next_state(
    s: RunState,
    to_remove: Seq<Seq<char>>,
    to_export: Seq<Seq<char>>,
    copies: bool,
    ok: bool,
) -> RunState {
    let over = RunState { stage: ExtStage::Finished, at: 0, results: s.results };
    match s.stage {
        ExtStage::CleanAll => if ok {
            RunState { stage: ExtStage::MakeDir, at: 0, results: s.results }
        } else {
            over
        },
        ExtStage::MakeDir => if ok {
            enter_remove(to_remove, to_export, 0, s.results)
        } else {
            over
        },
        ExtStage::Remove => enter_remove(to_remove, to_export, s.at + 1, s.results),
        ExtStage::Prepare => if ok {
            RunState { stage: ExtStage::Run, at: s.at, results: s.results }
        } else {
            enter_export(to_export, s.at + 1, s.results.insert(to_export[s.at], false))
        },
        ExtStage::Run => {
            let results = s.results.insert(to_export[s.at], ok);
            if ok && copies {
                RunState { stage: ExtStage::Copy, at: s.at, results }
            } else {
                enter_export(to_export, s.at + 1, results)
            }
        },
        ExtStage::Copy => enter_export(to_export, s.at + 1, s.results),
        ExtStage::Save | ExtStage::Finished => over,
    }
}

/// An export of the listed extensions as it begins. Where they could not be
/// listed, it is over at once, with a mark among its results.
pub open spec fn is_started(
    run: ExtensionRun,
    action: ExtAction,
    listed: Option<Vec<(String, String)>>,
    last: StrMap<String>,
    incremental: bool,
    copies: bool,
) -> bool {
    &&& run.wf()
    &&& run.asks(action)
    &&& run.last == last
    &&& run.copies == copies
    &&& match listed {
        None => run.state() == (RunState {
            stage: ExtStage::Finished,
            at: 0,
            results: Map::empty().insert(LIST_FAILED@, false),
        }),
        Some(current) => {
            &&& run.current == current
            &&& run.state() == (RunState {
                stage: if incremental {
                    ExtStage::MakeDir
                } else {
                    ExtStage::CleanAll
                },
                at: 0,
                results: Map::empty(),
            })
            &&& incremental ==> text::views(run.to_export@) == export::changed_names(
                export::pair_views(current@),
                string_values(last@),
            ) && text::views(run.to_remove@) == export::gone_names(
                last.keys(),
                export::hash_map(export::pair_views(current@)),
            )
            &&& !incremental ==> text::views(run.to_export@) == export::all_names(
                export::pair_views(current@),
            ) && run.to_remove@.len() == 0
        },
    }
}

impl ExtensionRun {
    /// Where the export stands.
    pub open spec fn state(&self) -> RunState {
        RunState { stage: self.stage, at: self.at as int, results: self.results@ }
    }

    /// The stage fits what is left to do.
    pub open spec fn wf(&self) -> bool {
        match self.stage {
            ExtStage::Remove => self.at < self.to_remove@.len(),
            ExtStage::Prepare | ExtStage::Run | ExtStage::Copy => self.at < self.to_export@.len(),
            _ => true,
        }
    }

    /// The action is the one that the stage asks for.
    pub open spec fn asks(&self, a: ExtAction) -> bool {
        match self.stage {
            ExtStage::CleanAll => a == (ExtAction::CleanAll { copies: self.copies }),
            ExtStage::MakeDir => a is MakeDir,
            ExtStage::Remove => a matches ExtAction::Remove { name, copy } && name@
                == self.to_remove@[self.at as int]@ && copy == self.copies,
            ExtStage::Prepare => a matches ExtAction::Prepare(name) && name@
                == self.to_export@[self.at as int]@,
            ExtStage::Run => a matches ExtAction::Run(name) && name@
                == self.to_export@[self.at as int]@,
            ExtStage::Copy => a matches ExtAction::Copy(name) && name@
                == self.to_export@[self.at as int]@,
            ExtStage::Save => a matches ExtAction::Save(hashes) && string_values(hashes@)
                == export::kept_hashes(
                export::hash_map(export::pair_views(self.current@)),
                self.results@,
                string_values(self.last@),
            ),
            ExtStage::Finished => a is Finish,
        }
    }

    /// The action that the stage asks for.
    fn action(&self) -> (r: ExtAction)
        requires
            self.wf(),
        ensures
            self.asks(r),
    {
        match self.stage {
            ExtStage::CleanAll => ExtAction::CleanAll { copies: self.copies },
            ExtStage::MakeDir => ExtAction::MakeDir,
            ExtStage::Remove => ExtAction::Remove {
                name: self.to_remove[self.at].clone(),
                copy: self.copies,
            },
            ExtStage::Prepare => ExtAction::Prepare(self.to_export[self.at].clone()),
            ExtStage::Run => ExtAction::Run(self.to_export[self.at].clone()),
            ExtStage::Copy => ExtAction::Copy(self.to_export[self.at].clone()),
            ExtStage::Save => ExtAction::Save(
                export::hashes_to_save(&self.current, &self.results, &self.last),
            ),
            ExtStage::Finished => ExtAction::Finish,
        }
    }

    /// Begins an export of the listed extensions. Where they could not be
    /// listed, it is over at once, with a mark among its results.
    pub fn start(
        listed: Option<Vec<(String, String)>>,
        last: StrMap<String>,
        incremental: bool,
        copies: bool,
    ) -> (r: (ExtensionRun, ExtAction))
        ensures
            is_started(r.0, r.1, listed, last, incremental, copies),
    {
        let run = match listed {
            None => {
                let mut results: StrMap<bool> = StrMap::new();
                results.insert(LIST_FAILED.to_owned(), false);
                ExtensionRun {
                    current: Vec::new(),
                    last,
                    to_export: Vec::new(),
                    to_remove: Vec::new(),
                    copies,
                    stage: ExtStage::Finished,
                    at: 0,
                    results,
                }
            },
            Some(current) => {
                let plan = export::plan_extensions(&current, &last, incremental);
                let stage = if incremental {
                    ExtStage::MakeDir
                } else {
                    ExtStage::CleanAll
                };
                ExtensionRun {
                    current,
                    last,
                    to_export: plan.to_export,
                    to_remove: plan.to_remove,
                    copies,
                    stage,
                    at: 0,
                    results: StrMap::new(),
                }
            },
        };
        let action = run.action();
        (run, action)
    }

    /// Goes on with the extensions to export, from `i` on.
    fn go_export(&mut self, i: usize)
        requires
            i <= old(self).to_export@.len(),
        ensures
            final(self).state() == enter_export(
                text::views(old(self).to_export@),
                i as int,
                old(self).results@,
            ),
            final(self).wf(),
            final(self).current == old(self).current,
            final(self).last == old(self).last,
            final(self).to_export == old(self).to_export,
            final(self).to_remove == old(self).to_remove,
            final(self).copies == old(self).copies,
    {
        if i < self.to_export.len() {
            self.stage = ExtStage::Prepare;
            self.at = i;
        } else {
            self.stage = ExtStage::Save;
            self.at = 0;
        }
    }

    /// Goes on with the extensions to remove, from `i` on.
    fn go_remove(&mut self, i: usize)
        requires
            i <= old(self).to_remove@.len(),
        ensures
            final(self).state() == enter_remove(
                text::views(old(self).to_remove@),
                text::views(old(self).to_export@),
                i as int,
                old(self).results@,
            ),
            final(self).wf(),
            final(self).current == old(self).current,
            final(self).last == old(self).last,
            final(self).to_export == old(self).to_export,
            final(self).to_remove == old(self).to_remove,
            final(self).copies == old(self).copies,
    {
        if i < self.to_remove.len() {
            self.stage = ExtStage::Remove;
            self.at = i;
        } else {
            self.go_export(0);
        }
    }

    /// Takes whether the last action succeeded and says what to do next.
    pub fn step(&mut self, ok: bool) -> (r: ExtAction)
        requires
            old(self).wf(),
        ensures
            final(self).wf(),
            final(self).asks(r),
            final(self).state() == next_state(
                old(self).state(),
                text::views(old(self).to_remove@),
                text::views(old(self).to_export@),
                old(self).copies,
                ok,
            ),
            final(self).current == old(self).current,
            final(self).last == old(self).last,
            final(self).to_export == old(self).to_export,
            final(self).to_remove == old(self).to_remove,
            final(self).copies == old(self).copies,
    {
        let at: usize = self.at;
        let n: usize = self.to_export.len();
        let m: usize = self.to_remove.len();
        match self.stage {
            ExtStage::CleanAll => {
                self.at = 0;
                self.stage = if ok {
                    ExtStage::MakeDir
                } else {
                    ExtStage::Finished
                };
            },
            ExtStage::MakeDir => {
                if ok {
                    self.go_remove(0);
                } else {
                    self.at = 0;
                    self.stage = ExtStage::Finished;
                }
            },
            ExtStage::Remove => {
                self.go_remove(at + 1);
            },
            ExtStage::Prepare => {
                if ok {
                    self.stage = ExtStage::Run;
                } else {
                    let name = self.to_export[at].clone();
                    assert(text::views(self.to_export@)[at as int] == name@);
                    self.results.insert(name, false);
                    self.go_export(at + 1);
                }
            },
            ExtStage::Run => {
                let name = self.to_export[at].clone();
                assert(text::views(self.to_export@)[at as int] == name@);
                self.results.insert(name, ok);
                if ok && self.copies {
                    self.stage = ExtStage::Copy;
                } else {
                    self.go_export(at + 1);
                }
            },
            ExtStage::Copy => {
                self.go_export(at + 1);
            },
            ExtStage::Save | ExtStage::Finished => {
                self.at = 0;
                self.stage = ExtStage::Finished;
            },
        }
        self.action()
    }
}

// Laws.

/// The extensions before `n` in the list are exactly those with a result.
pub open spec fn covers(
    results: Map<Seq<char>, bool>,
    to_export: Seq<Seq<char>>,
    n: int,
) -> bool {
    forall|k: Seq<char>| #[trigger]
        results.dom().contains(k) <==> to_export.take(n).contains(k)
}

/// Every extension that was dealt with has a result, and no other one has.
pub open spec fn is_covered(s: RunState, to_export: Seq<Seq<char>>) -> bool {
    match s.stage {
        ExtStage::CleanAll | ExtStage::MakeDir | ExtStage::Remove => covers(
            s.results,
            to_export,
            0,
        ),
        ExtStage::Prepare | ExtStage::Run => 0 <= s.at < to_export.len() && covers(
            s.results,
            to_export,
            s.at,
        ),
        ExtStage::Copy => 0 <= s.at < to_export.len() && covers(s.results, to_export, s.at + 1),
        ExtStage::Save => covers(s.results, to_export, to_export.len() as int),
        ExtStage::Finished => true,
    }
}

proof fn lemma_cover(
    results: Map<Seq<char>, bool>,
    to_export: Seq<Seq<char>>,
    i: int,
    ok: bool,
)
    requires
        0 <= i < to_export.len(),
        covers(results, to_export, i),
    ensures
        covers(results.insert(to_export[i], ok), to_export, i + 1),
{
    let a = to_export.take(i);
    let b = to_export.take(i + 1);
    assert(b =~= a.push(to_export[i]));
    assert forall|k: Seq<char>| #[trigger]
        results.insert(to_export[i], ok).dom().contains(k) <==> b.contains(k) by {
        if a.contains(k) {
            let j = a.index_of(k);
            assert(b[j] == k);
        }
        if b.contains(k) {
            let j = b.index_of(k);
            if j < i {
                assert(a[j] == k);
            }
        }
        assert(b[i] == to_export[i]);
        assert(results.dom().contains(k) <==> a.contains(k));
    }
}

/// At every step the extensions that were dealt with have a result and no
/// others have one; so once the hashes are kept, every planned extension has
/// one.
pub proof fn results_cover_the_plan(
    s: RunState,
    to_remove: Seq<Seq<char>>,
    to_export: Seq<Seq<char>>,
    copies: bool,
    ok: bool,
)
    requires
        is_covered(s, to_export),
    ensures
        is_covered(next_state(s, to_remove, to_export, copies, ok), to_export),
{
    match s.stage {
        ExtStage::Prepare => {
            lemma_cover(s.results, to_export, s.at, false);
        },
        ExtStage::Run => {
            lemma_cover(s.results, to_export, s.at, ok);
        },
        _ => {},
    }
}

/// A binary copy is made only of an extension that was just exported, and only
/// where copies are kept.
pub proof fn copies_follow_exports(
    s: RunState,
    to_remove: Seq<Seq<char>>,
    to_export: Seq<Seq<char>>,
    copies: bool,
    ok: bool,
)
    requires
        next_state(s, to_remove, to_export, copies, ok).stage is Copy,
    ensures
        copies && ok && s.stage is Run,
        next_state(s, to_remove, to_export, copies, ok).results[to_export[s.at]],
{
}

/// How many steps are left at most.
pub open spec fn steps_left(
    s: RunState,
    to_remove: Seq<Seq<char>>,
    to_export: Seq<Seq<char>>,
) -> int {
    let per_all = 3 * to_export.len() as int + 2;
    match s.stage {
        ExtStage::CleanAll => per_all + to_remove.len() + 2,
        ExtStage::MakeDir => per_all + to_remove.len() + 1,
        ExtStage::Remove => per_all + to_remove.len() - s.at,
        ExtStage::Prepare => 3 * (to_export.len() - s.at) + 1,
        ExtStage::Run => 3 * (to_export.len() - s.at),
        ExtStage::Copy => 3 * (to_export.len() - s.at) - 1,
        ExtStage::Save => 1,
        ExtStage::Finished => 0,
    }
}

/// An export of extensions ends: every step leaves fewer.
pub proof fn extension_export_ends(
    s: RunState,
    to_remove: Seq<Seq<char>>,
    to_export: Seq<Seq<char>>,
    copies: bool,
    ok: bool,
)
    requires
        !(s.stage is Finished),
        s.stage is Remove ==> 0 <= s.at < to_remove.len(),
        s.stage is Prepare || s.stage is Run || s.stage is Copy ==> 0 <= s.at < to_export.len(),
    ensures
        0 <= steps_left(next_state(s, to_remove, to_export, copies, ok), to_remove, to_export)
            < steps_left(s, to_remove, to_export),
{
}

/// An extension that failed in an export, incremental or full, is planned by the
/// incremental export after it, as long as it is listed then and has not gone
/// back to the hash from before.
pub proof fn failed_extension_is_planned_again(
    first: ExtensionRun,
    kept: StrMap<String>,
    second: ExtensionRun,
    action: ExtAction,
    listed: Vec<(String, String)>,
    copies: bool,
    name: Seq<char>,
)
    requires
        first.stage is Save,
        first.asks(ExtAction::Save(kept)),
        first.results@.dom().contains(name),
        !first.results@[name],
        is_started(second, action, Some(listed), kept, true, copies),
        exists|i: int|
            0 <= i < listed@.len() && (#[trigger] export::pair_views(listed@)[i]).0 == name
                && !export::went_back(
                export::pair_views(first.current@),
                string_values(first.last@),
                name,
                export::pair_views(listed@)[i].1,
            ),
    ensures
        text::views(second.to_export@).contains(name),
{
    export::failed_extension_is_tried_again(
        export::pair_views(first.current@),
        first.results@,
        string_values(first.last@),
        export::pair_views(listed@),
        name,
    );
}

/// An export of extensions begins with what it was given: without a list it is
/// over and has failed; an incremental one goes on with what is there, plans the
/// extensions that have changed and removes those that are gone; a full one clears
/// everything first and plans every extension that is listed.
#[verifier::rlimit(40)]
pub proof fn extension_export_begins(
    run: ExtensionRun,
    action: ExtAction,
    listed: Option<Vec<(String, String)>>,
    last: StrMap<String>,
    incremental: bool,
    copies: bool,
    name: Seq<char>,
    i: int,
)
    requires
        is_started(run, action, listed, last, incremental, copies),
    ensures
        listed is None ==> action is Finish && run.results@.dom().contains("<list-failed>"@)
            && !run.results@["<list-failed>"@],
        listed is Some ==> run.results@.dom() =~= Set::<Seq<char>>::empty(),
        listed is Some && incremental ==> action is MakeDir,
        listed is Some && !incremental ==> action == (ExtAction::CleanAll { copies }),
        listed matches Some(current) ==> {
            &&& !incremental ==> run.to_export@.len() == current@.len() && run.to_remove@.len() == 0
                && (0 <= i < current@.len() ==> run.to_export@[i]@ == current@[i].0@)
            &&& incremental ==> (text::views(run.to_export@).contains(name) <==> exists|k: int|
                0 <= k < current@.len() && (#[trigger] export::pair_views(current@)[k]).0 == name
                    && (export::pair_views(current@)[k].1.len() == 0 || !last@.dom().contains(name)
                    || last@[name]@ != export::pair_views(current@)[k].1))
            &&& incremental ==> (text::views(run.to_remove@).contains(name) <==> last.keys().contains(
                name,
            ) && !export::hash_map(export::pair_views(current@)).dom().contains(name))
        },
{
    if let Some(current) = listed {
        let pairs = export::pair_views(current@);
        export::changed_extensions_are_exported(pairs, string_values(last@), name);
        export::gone_extensions_are_removed(
            last.keys(),
            export::hash_map(pairs),
            Map::empty(),
            Map::empty(),
            name,
        );
        if !incremental {
            assert(text::views(run.to_export@).len() == run.to_export@.len());
            if 0 <= i < current@.len() {
                assert(text::views(run.to_export@)[i] == run.to_export@[i]@);
                assert(pairs[i].0 == current@[i].0@);
            }
        }
    }
}

/// The steps of an export of extensions follow each other: the directory is
/// cleared and made, what is gone is removed, then each extension is prepared, run
/// and, where copies are kept, copied. What `ibcmd` says of an extension is its
/// result; one that could not be prepared has failed; the next one follows either
/// way.
#[verifier::rlimit(40)]
pub proof fn extension_export_takes_its_course(
    s: RunState,
    to_remove: Seq<Seq<char>>,
    to_export: Seq<Seq<char>>,
    copies: bool,
    ok: bool,
)
    ensures
        ({
            let t = next_state(s, to_remove, to_export, copies, ok);
            let name = to_export[s.at];
            let after = s.at + 1;
            &&& s.stage is CleanAll || s.stage is MakeDir ==> t.results == s.results && (!ok
                ==> t.stage is Finished)
            &&& s.stage is CleanAll && ok ==> t.stage is MakeDir
            &&& s.stage is MakeDir && ok && to_remove.len() > 0 ==> t.stage is Remove && t.at == 0
            &&& s.stage is MakeDir && ok && to_remove.len() == 0 && to_export.len() > 0
                ==> t.stage is Prepare && t.at == 0
            &&& s.stage is Remove && after < to_remove.len() ==> t.stage is Remove && t.at == after
                && t.results == s.results
            &&& s.stage is Remove && after >= to_remove.len() && to_export.len() > 0
                ==> t.stage is Prepare && t.at == 0 && t.results == s.results
            &&& s.stage is Prepare && ok ==> t.stage is Run && t.at == s.at && t.results
                == s.results
            &&& s.stage is Prepare && !ok ==> t.results == s.results.insert(name, false)
            &&& s.stage is Run ==> t.results == s.results.insert(name, ok)
            &&& s.stage is Run && ok && copies ==> t.stage is Copy && t.at == s.at
            &&& s.stage is Copy ==> t.results == s.results
            &&& (s.stage is Copy || (s.stage is Run && !(ok && copies)) || (s.stage is Prepare
                && !ok)) && after < to_export.len() ==> t.stage is Prepare && t.at == after
            &&& (s.stage is Copy || (s.stage is Run && !(ok && copies)) || (s.stage is Prepare
                && !ok)) && after >= to_export.len() ==> t.stage is Save
            &&& s.stage is Save ==> t.stage is Finished && t.results == s.results
        }),
{
}

/// What is asked for at a step concerns the extension that the step is about.
pub proof fn actions_name_their_extension(run: ExtensionRun, a: ExtAction)
    requires
        run.asks(a),
    ensures
        match a {
            ExtAction::CleanAll { copies } => run.stage is CleanAll && copies == run.copies,
            ExtAction::MakeDir => run.stage is MakeDir,
            ExtAction::Remove { name, copy } => run.stage is Remove && copy == run.copies && name@
                == run.to_remove@[run.at as int]@,
            ExtAction::Prepare(name) => run.stage is Prepare && name@
                == run.to_export@[run.at as int]@,
            ExtAction::Run(name) => run.stage is Run && name@ == run.to_export@[run.at as int]@,
            ExtAction::Copy(name) => run.stage is Copy && name@ == run.to_export@[run.at as int]@,
            ExtAction::Save(_) => run.stage is Save,
            ExtAction::Finish => run.stage is Finished,
        },
{
}

} // verus!
