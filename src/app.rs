//! Plans a version bump over every tracked file and workspace, and says how
//! the planned edits are to be applied.
use crate::config::{Config, FileTableData};
use crate::error::BumpError;
use crate::pattern::{escaped, pattern_compiles};
use crate::replacers::cargo::{
    planning_fails, propagate, propagated, propagation_fails_with, writes_succeed, Workspace,
};
use crate::replacers::search::validated_starts;
use crate::replacers::{file, search, simple, VersionReplacement};
use crate::text::{spans_at, spliced, substituted};
use vstd::prelude::*;
use vstd::utf8::encode_utf8;

verus! {

/// The current content of what a bump reads: each tracked file, in the
/// order of the configuration, and the workspace when one is configured.
#[derive(Debug)]
pub struct Sources {
    pub files: Vec<Vec<u8>>,
    pub workspace: Option<Workspace>,
}

/// A bump's versions, and whether it only shows its edits.
#[derive(Debug)]
pub struct RawBump {
    pub old_version: String,
    pub new_version: String,
    pub dry_run: bool,
}

/// What to do with the planned edits: show them, or write them.
#[derive(Debug)]
pub enum ApplyPlan {
    /// Show each edit as a diff against the file; write nothing.
    DryRun(Vec<file::Replacer>),
    /// Replace each file's content, one file at a time.
    Persist(Vec<file::Replacer>),
}

/// The tracked files of the configuration.
pub open spec fn file_entries(config: Config) -> Seq<(String, FileTableData)> {
    match config.by_file {
        Some(v) => v@,
        None => Seq::empty(),
    }
}

/// The new content of one tracked file; none when planning it fails.
pub open spec fn file_edit(data: FileTableData, content: Seq<u8>, old: Seq<char>, new: Seq<char>) -> Option<
    Seq<u8>,
> {
    let old_bytes = encode_utf8(old);
    match data.search_value {
        None => if pattern_compiles(escaped(old)) {
            Some(substituted(content, old_bytes, encode_utf8(new)))
        } else {
            None
        },
        Some(v) => {
            let chosen = validated_starts(content, old_bytes, v@);
            if pattern_compiles(escaped(old)) && pattern_compiles(v@) && chosen.len() > 0 {
                Some(spliced(content, spans_at(chosen, old_bytes.len() as int), encode_utf8(new)))
            } else {
                None
            }
        },
    }
}

/// The inputs fit the configuration: one content per tracked file, and a
/// well-formed workspace where one is configured.
pub open spec fn sources_fit(config: Config, sources: Sources) -> bool {
    &&& sources.files@.len() == file_entries(config).len()
    &&& config.cargo is Some ==> (sources.workspace matches Some(ws) && ws.wf())
}

/// What a plan of the edits for `replacement` satisfies: the tracked files
/// come first, in order, each with its exact new content, then the
/// workspace's edits.
pub open spec fn changes_planned(
    config: Config,
    replacement: VersionReplacement,
    sources: Sources,
    edits: Seq<file::Replacer>,
) -> bool {
    let entries = file_entries(config);
    let n = entries.len();
    &&& edits.len() >= n
    &&& forall|i: int|
        0 <= i < n ==> {
            &&& (#[trigger] edits[i]).path@ == entries[i].0@
            &&& file_edit(entries[i].1, sources.files@[i]@, replacement.old_version@, replacement.new_version@)
                == Some(edits[i].contents@)
        }
    &&& config.cargo is None ==> edits.len() == n
    &&& config.cargo matches Some(mode) ==> (sources.workspace matches Some(ws) && propagated(
        ws,
        mode,
        replacement.old_version@,
        replacement.new_version@,
        edits.skip(n as int),
    ))
}

/// The failures that the inputs decide: a tracked file whose edit cannot be
/// planned, or a configured workspace whose propagation fails.
pub open spec fn plan_fails(config: Config, replacement: VersionReplacement, sources: Sources) -> bool {
    ||| exists|i: int|
        0 <= i < file_entries(config).len() && #[trigger] file_edit(
            file_entries(config)[i].1,
            sources.files@[i]@,
            replacement.old_version@,
            replacement.new_version@,
        ) is None
    ||| (config.cargo matches Some(mode) && sources.workspace matches Some(ws) && planning_fails(
        ws,
        mode,
        replacement,
    ))
}

/// The error with which the strategy of one tracked file fails: a pattern
/// that does not compile, or else no validated occurrence.
pub open spec fn file_fails_with(e: BumpError, data: FileTableData, old: Seq<char>) -> bool {
    match data.search_value {
        None => e is Regex,
        Some(v) => if pattern_compiles(escaped(old)) && pattern_compiles(v@) {
            e is NoValidatedMatches
        } else {
            e is Regex
        },
    }
}

/// The tracked file at `i` plans.
pub open spec fn file_plans(config: Config, replacement: VersionReplacement, sources: Sources, i: int) -> bool {
    file_edit(
        file_entries(config)[i].1,
        sources.files@[i]@,
        replacement.old_version@,
        replacement.new_version@,
    ) is Some
}

/// `e` is the error of the first step that fails: the first tracked file
/// whose edit cannot be planned, or, when all plan, the workspace's
/// propagation.
pub open spec fn fails_first_with(
    e: BumpError,
    config: Config,
    replacement: VersionReplacement,
    sources: Sources,
) -> bool {
    let entries = file_entries(config);
    ||| exists|i: int|
        0 <= i < entries.len() && !#[trigger] file_plans(config, replacement, sources, i) && (forall|j: int|
            0 <= j < i ==> file_plans(config, replacement, sources, j)) && file_fails_with(
            e,
            entries[i].1,
            replacement.old_version@,
        )
    ||| ((forall|j: int| 0 <= j < entries.len() ==> file_plans(config, replacement, sources, j))
        && match (config.cargo, sources.workspace) {
        (Some(mode), Some(ws)) => propagation_fails_with(e, ws, mode, replacement),
        _ => false,
    })
}

/// Writing back the workspace's manifests succeeds, where one is configured.
pub open spec fn writes_ok(config: Config, replacement: VersionReplacement, sources: Sources) -> bool {
    match (config.cargo, sources.workspace) {
        (Some(mode), Some(ws)) => writes_succeed(
            ws,
            mode,
            replacement.old_version@,
            replacement.new_version@,
        ),
        _ => true,
    }
}

/// Plans the edits of one bump: each tracked file with its strategy, then
/// the workspace. Nothing is written. Succeeds unless a step fails, and then
/// ends with the first failing step's error.
pub fn determine_changes(config: &Config, replacement: &VersionReplacement, sources: &Sources) -> (r:
    Result<Vec<file::Replacer>, BumpError>)
    requires
        replacement.old_version@.len() > 0,
        config.wf(),
        sources_fit(*config, *sources),
    ensures
        plan_fails(*config, *replacement, *sources) ==> r is Err,
        !plan_fails(*config, *replacement, *sources) && writes_ok(*config, *replacement, *sources)
            ==> r is Ok,
        r matches Err(e) ==> fails_first_with(e, *config, *replacement, *sources),
        r matches Ok(edits) ==> changes_planned(*config, *replacement, *sources, edits@),
{
    let ghost entries = file_entries(*config);
    let mut edits: Vec<file::Replacer> = Vec::new();
    let old_version = replacement.old_version.as_str();
    let new_version = replacement.new_version.as_str();
    if let Some(by_file) = &config.by_file {
        let mut i: usize = 0;
        while i < by_file.len()
            invariant
                i <= by_file@.len(),
                entries == by_file@,
                entries == file_entries(*config),
                sources.files@.len() == entries.len(),
                old_version@ == replacement.old_version@,
                new_version@ == replacement.new_version@,
                old_version@.len() > 0,
                edits@.len() == i,
                forall|j: int|
                    0 <= j < i ==> {
                        &&& (#[trigger] edits@[j]).path@ == entries[j].0@
                        &&& file_edit(entries[j].1, sources.files@[j]@, old_version@, new_version@)
                            == Some(edits@[j].contents@)
                    },
            decreases by_file@.len() - i,
        {
            let (path, data) = &by_file[i];
            let content = sources.files[i].as_slice();
            assert(entries[i as int] == (*path, *data));
            match &data.search_value {
                Some(value) => {
                    let replacer = match search::Replacer::new(path.clone(), old_version, value.as_str(), new_version) {
                        Ok(r) => r,
                        Err(e) => {
                            assert(file_edit(entries[i as int].1, sources.files@[i as int]@, old_version@, new_version@) is None);
                            proof {
                                lemma_first_failure(*config, *replacement, *sources, i as int, e, edits@);
                            }
                            return Err(e);
                        },
                    };
                    match replacer.determine_replacements(content) {
                        Ok(edit) => edits.push(edit),
                        Err(e) => {
                            assert(file_edit(entries[i as int].1, sources.files@[i as int]@, old_version@, new_version@) is None);
                            proof {
                                lemma_first_failure(*config, *replacement, *sources, i as int, e, edits@);
                            }
                            return Err(e);
                        },
                    }
                },
                None => {
                    let replacer = match simple::Replacer::new(path.clone(), old_version, new_version) {
                        Ok(r) => r,
                        Err(e) => {
                            assert(file_edit(entries[i as int].1, sources.files@[i as int]@, old_version@, new_version@) is None);
                            proof {
                                lemma_first_failure(*config, *replacement, *sources, i as int, e, edits@);
                            }
                            return Err(e);
                        },
                    };
                    edits.push(replacer.determine_replacements(content));
                },
            }
            i = i + 1;
        }
    }
    let n = edits.len();
    assert(n == entries.len());
    assert forall|i: int| 0 <= i < entries.len() implies #[trigger] file_edit(
        entries[i].1,
        sources.files@[i]@,
        replacement.old_version@,
        replacement.new_version@,
    ) is Some by {
        assert(edits@[i].path@ == entries[i].0@);
    }
    if let (Some(mode), Some(ws)) = (&config.cargo, &sources.workspace) {
        let mut more = match propagate(replacement, mode, ws) {
            Ok(more) => more,
            Err(e) => {
                assert forall|j: int| 0 <= j < entries.len() implies file_plans(*config, *replacement, *sources, j) by {
                    assert(file_edit(entries[j].1, sources.files@[j]@, replacement.old_version@, replacement.new_version@) is Some);
                }
                return Err(e);
            },
        };
        let ghost front = edits@;
        let ghost tail = more@;
        edits.append(&mut more);
        assert(edits@.skip(n as int) =~= tail);
        assert forall|i: int| 0 <= i < n implies #[trigger] edits@[i] == front[i] by {}
    }
    Ok(edits)
}

proof fn lemma_first_failure(
    config: Config,
    replacement: VersionReplacement,
    sources: Sources,
    i: int,
    e: BumpError,
    edits: Seq<file::Replacer>,
)
    requires
        0 <= i < file_entries(config).len(),
        edits.len() == i,
        forall|j: int|
            0 <= j < i ==> file_edit(
                file_entries(config)[j].1,
                sources.files@[j]@,
                replacement.old_version@,
                replacement.new_version@,
            ) == Some(#[trigger] edits[j].contents@),
        !file_plans(config, replacement, sources, i),
        file_fails_with(e, file_entries(config)[i].1, replacement.old_version@),
    ensures
        fails_first_with(e, config, replacement, sources),
{
    assert forall|j: int| 0 <= j < i implies file_plans(config, replacement, sources, j) by {
        assert(file_edit(
            file_entries(config)[j].1,
            sources.files@[j]@,
            replacement.old_version@,
            replacement.new_version@,
        ) == Some(edits[j].contents@));
    }
}

/// A tool run over one configuration.
#[derive(Debug)]
pub struct App {
    pub config: Config,
}

impl App {
    /// A run over `config`.
    pub fn new(config: Config) -> (r: App)
        ensures
            r.config == config,
    {
        App { config }
    }

    /// Plans the bump from `opts.old_version` to `opts.new_version` over the
    /// configured files and workspace, and says whether the edits are shown
    /// or written.
    pub fn raw_bump(&self, opts: &RawBump, sources: &Sources) -> (r: Result<ApplyPlan, BumpError>)
        requires
            opts.old_version@.len() > 0,
            self.config.wf(),
            sources_fit(self.config, *sources),
        ensures
            plan_fails(
                self.config,
                VersionReplacement { old_version: opts.old_version, new_version: opts.new_version },
                *sources,
            ) ==> r is Err,
            !plan_fails(
                self.config,
                VersionReplacement { old_version: opts.old_version, new_version: opts.new_version },
                *sources,
            ) && writes_ok(
                self.config,
                VersionReplacement { old_version: opts.old_version, new_version: opts.new_version },
                *sources,
            ) ==> r is Ok,
            r matches Err(e) ==> fails_first_with(
                e,
                self.config,
                VersionReplacement { old_version: opts.old_version, new_version: opts.new_version },
                *sources,
            ),
            r matches Ok(plan) ==> match plan {
                ApplyPlan::DryRun(edits) => opts.dry_run && changes_planned(
                    self.config,
                    VersionReplacement { old_version: opts.old_version, new_version: opts.new_version },
                    *sources,
                    edits@,
                ),
                ApplyPlan::Persist(edits) => !opts.dry_run && changes_planned(
                    self.config,
                    VersionReplacement { old_version: opts.old_version, new_version: opts.new_version },
                    *sources,
                    edits@,
                ),
            },
    {
        let replacement = VersionReplacement {
            old_version: opts.old_version.clone(),
            new_version: opts.new_version.clone(),
        };
        let edits = determine_changes(&self.config, &replacement, sources)?;
        if opts.dry_run {
            Ok(ApplyPlan::DryRun(edits))
        } else {
            Ok(ApplyPlan::Persist(edits))
        }
    }
}

} // verus!
