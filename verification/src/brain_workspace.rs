//! The index behind the workspace search: how it is reached, step by step, and what is
//! taken from what it finds.

use crate::messages::opt_view;
use crate::paths::{file_name, file_name_of};
use crate::settings::{Settings, WorkspaceSearchSettings};
use crate::text::{
    copy_texts, hex, hex_text, join, join_path, join_texts, path_join, str_eq, views,
};
use crate::tools::workspace_search::{SearchPassage, WorkspaceSearchPage};
use std::collections::hash_map::DefaultHasher;
use std::hash::{Hash, Hasher};
use vstd::prelude::*;
use vstd::std_specs::hash::DefaultHasherAdditionalSpecFns;

verus! {

/// Whether the tool of the workspace search was registered in this process.
pub struct WorkspaceSearchRegistration {
    pub registered: bool,
}

impl WorkspaceSearchRegistration {
    /// Nothing was registered yet.
    pub fn new() -> (r: Self)
        ensures
            !r.registered,
    {
        WorkspaceSearchRegistration { registered: false }
    }

    /// Whether the tool was registered.
    pub fn workspace_search_registered(&self) -> (r: bool)
        ensures
            r == self.registered,
    {
        self.registered
    }

    /// Says that the tool was registered.
    pub fn mark_workspace_search_registered(&mut self)
        ensures
            final(self).registered,
    {
        self.registered = true;
    }
}

/// The files that are indexed where the settings say nothing.
pub open spec fn included_globs() -> Seq<Seq<char>> {
    seq![
        "**/*.rs"@,
        "**/*.ts"@,
        "**/*.tsx"@,
        "**/*.js"@,
        "**/*.jsx"@,
        "**/*.py"@,
        "**/*.go"@,
        "**/*.java"@,
        "**/*.kt"@,
        "**/*.swift"@,
        "**/*.c"@,
        "**/*.h"@,
        "**/*.cpp"@,
        "**/*.hpp"@,
        "**/*.md"@,
        "**/*.toml"@,
        "**/*.yaml"@,
        "**/*.yml"@,
        "**/*.json"@,
    ]
}

/// The files that are not indexed where the settings say nothing.
pub open spec fn excluded_globs() -> Seq<Seq<char>> {
    seq![
        "**/target/**"@,
        "**/node_modules/**"@,
        "**/dist/**"@,
        "**/build/**"@,
        "**/__pycache__/**"@,
        "**/.git/**"@,
        "**/.venv/**"@,
        "**/venv/**"@,
    ]
}

/// The files that are indexed where the settings say nothing.
pub fn default_included() -> (r: Vec<String>)
    ensures
        views(r@) == included_globs(),
{
    let globs: Vec<&str> = vec![
        "**/*.rs",
        "**/*.ts",
        "**/*.tsx",
        "**/*.js",
        "**/*.jsx",
        "**/*.py",
        "**/*.go",
        "**/*.java",
        "**/*.kt",
        "**/*.swift",
        "**/*.c",
        "**/*.h",
        "**/*.cpp",
        "**/*.hpp",
        "**/*.md",
        "**/*.toml",
        "**/*.yaml",
        "**/*.yml",
        "**/*.json",
    ];
    let r = default_globs(globs.as_slice());
    proof {
        assert(views(r@) =~= included_globs());
    }
    r
}

/// The files that are not indexed where the settings say nothing.
pub fn default_excluded() -> (r: Vec<String>)
    ensures
        views(r@) == excluded_globs(),
{
    let globs: Vec<&str> = vec![
        "**/target/**",
        "**/node_modules/**",
        "**/dist/**",
        "**/build/**",
        "**/__pycache__/**",
        "**/.git/**",
        "**/.venv/**",
        "**/venv/**",
    ];
    let r = default_globs(globs.as_slice());
    proof {
        assert(views(r@) =~= excluded_globs());
    }
    r
}

/// The globs as texts of their own.
pub fn default_globs(globs: &[&str]) -> (r: Vec<String>)
    ensures
        r@.len() == globs@.len(),
        forall|i: int| 0 <= i < r@.len() ==> (#[trigger] r@[i])@ == globs@[i]@,
{
    let mut out: Vec<String> = Vec::new();
    let mut i: usize = 0;
    while i < globs.len()
        invariant
            i <= globs@.len(),
            out@.len() == i,
            forall|j: int| 0 <= j < i ==> (#[trigger] out@[j])@ == globs@[j]@,
        decreases globs@.len() - i,
    {
        out.push(globs[i].to_owned());
        i += 1;
    }
    out
}

/// Whether feeding a path to a hasher may take what it was fed from one state to another.
/// What a path feeds is left to the machine and to the release of std, so this is a relation
/// and no function of the path.
pub uninterp spec fn path_feeds(
    path: Seq<char>,
    before: Seq<Seq<u8>>,
    after: Seq<Seq<u8>>,
) -> bool;

/// `std::path::Path`'s `Hash::hash`: feeds the components of the path to a hasher. What is
/// fed comes of this path and of nothing else; which bytes they are is left unsaid, since std
/// does not fix them.
#[verifier::external_body]
fn feed_path(path: &str, hasher: &mut DefaultHasher)
    ensures
        path_feeds(path@, old(hasher)@, final(hasher)@),
{
    std::path::Path::new(path).hash(hasher)
}

/// Whether a number is what a fresh hasher makes of a path.
pub open spec fn is_path_hash(path: Seq<char>, hash: u64) -> bool {
    exists|fed: Seq<Seq<u8>>| #[trigger]
        path_feeds(path, Seq::<Seq<u8>>::empty(), fed) && hash == DefaultHasher::spec_finish(fed)
}

/// The number that a fresh hasher makes of a path.
fn hash_path(path: &str) -> (r: u64)
    ensures
        is_path_hash(path@, r),
{
    let mut hasher = DefaultHasher::new();
    feed_path(path, &mut hasher);
    hasher.finish()
}

/// The name of a workspace in the index: that of its directory, and the lowest eight
/// hexadecimal digits of a number for its path.
pub open spec fn alias_text(name: Option<Seq<char>>, hash: u64) -> Seq<char> {
    "ws-"@ + (match name {
        Some(n) => n,
        None => "workspace"@,
    }) + "-"@ + hex(hash as nat, 8)
}

/// The name of a workspace in the index, by a number for its path.
pub fn alias_with(name: Option<&str>, hash: u64) -> (r: String)
    ensures
        r@ == alias_text(crate::handoff_prompt::opt_str_view(name), hash),
{
    let mut alias = "ws-".to_owned();
    match name {
        Some(n) => {
            alias.append(n);
        },
        None => {
            alias.append("workspace");
        },
    }
    alias.append("-");
    alias.append(hex_text(hash, 8).as_str());
    alias
}

/// Whether this is the name of a workspace in the index: that of its directory, and a
/// number that a hasher makes of its path.
pub open spec fn is_alias_of(alias: Seq<char>, root: Seq<char>) -> bool {
    exists|hash: u64| #[trigger]
        is_path_hash(root, hash) && alias == alias_text(file_name(root), hash)
}

/// The name of a workspace in the index, by the canonical path of its directory.
pub fn root_alias(canonical: &str) -> (r: String)
    ensures
        is_alias_of(r@, canonical@),
{
    let hash: u64 = hash_path(canonical);
    let alias = match file_name_of(canonical) {
        Some(name) => alias_with(Some(name.as_str()), hash),
        None => alias_with(None, hash),
    };
    proof {
        assert(is_path_hash(canonical@, hash));
    }
    alias
}

/// The aliases of two workspaces are the same only where their directories have the same
/// name and the digits of their numbers agree.
pub proof fn lemma_aliases_differ(
    first: Option<Seq<char>>,
    first_hash: u64,
    second: Option<Seq<char>>,
    second_hash: u64,
)
    requires
        first is Some == second is Some,
    ensures
        alias_text(first, first_hash) == alias_text(second, second_hash) <==> (first == second
            && hex(first_hash as nat, 8) == hex(second_hash as nat, 8)),
{
    reveal_strlit("ws-");
    reveal_strlit("-");
    lemma_hex_len(first_hash as nat, 8);
    lemma_hex_len(second_hash as nat, 8);
    let a = alias_text(first, first_hash);
    let b = alias_text(second, second_hash);
    if a == b {
        assert(hex(first_hash as nat, 8) =~= a.skip(a.len() - 8));
        assert(hex(second_hash as nat, 8) =~= b.skip(b.len() - 8));
        if first is Some {
            assert(first->0 =~= a.subrange(3, a.len() - 9));
            assert(second->0 =~= b.subrange(3, b.len() - 9));
        }
    }
}

proof fn lemma_hex_len(n: nat, width: nat)
    ensures
        hex(n, width).len() == width,
    decreases width,
{
    if width > 0 {
        lemma_hex_len(n / 16, (width - 1) as nat);
    }
}

/// The program that serves the index: the one that is set, else one on the search path,
/// else one in the home directory, where there is such a file.
pub fn resolve_executable(
    explicit: Option<&str>,
    on_path: Option<&str>,
    in_home: Option<&str>,
) -> (r: Option<String>)
    ensures
        opt_view(r) == (match (explicit, on_path, in_home) {
            (Some(exe), _, _) => Some(exe@),
            (None, Some(exe), _) => Some(exe@),
            (None, None, Some(exe)) => Some(exe@),
            (None, None, None) => None,
        }),
{
    match explicit {
        Some(exe) => Some(exe.to_owned()),
        None => match on_path {
            Some(exe) => Some(exe.to_owned()),
            None => match in_home {
                Some(exe) => Some(exe.to_owned()),
                None => None,
            },
        },
    }
}

/// Where a program in the home directory would be.
pub fn home_executable(home: &str) -> (r: String)
    ensures
        r@ == path_join(path_join(path_join(home@, ".oxi"@), "bin"@), "oxibrain"@),
{
    let oxi = join_path(home, ".oxi");
    let bin = join_path(oxi.as_str(), "bin");
    join_path(bin.as_str(), "oxibrain")
}

/// Where the index keeps its data.
pub open spec fn brain_dir_of(set: Option<Seq<char>>, home: Option<Seq<char>>) -> Option<
    Seq<char>,
> {
    match (set, home) {
        (Some(dir), _) => Some(dir),
        (None, Some(h)) => Some(path_join(path_join(h, ".oxi"@), "brain"@)),
        (None, None) => None,
    }
}

/// Where the index keeps its data: where the environment says, or in the home directory.
pub fn brain_dir(set: Option<&str>, home: Option<&str>) -> (r: Option<String>)
    ensures
        opt_view(r) == brain_dir_of(
            crate::handoff_prompt::opt_str_view(set),
            crate::handoff_prompt::opt_str_view(home),
        ),
{
    match set {
        Some(dir) => Some(dir.to_owned()),
        None => match home {
            Some(h) => {
                let oxi = join_path(h, ".oxi");
                Some(join_path(oxi.as_str(), "brain"))
            },
            None => None,
        },
    }
}

/// The index of a workspace.
#[derive(Debug)]
pub struct BrainWorkspaceSearch {
    pub root: String,
    pub alias: String,
    pub endpoint_executable: Option<String>,
    pub brain_dir: String,
    pub space: String,
    pub include_globs: Vec<String>,
    pub exclude_globs: Vec<String>,
    pub max_file_bytes: Option<u64>,
}

/// How far the index has been reached.
#[derive(Debug, Clone, Copy, PartialEq, Eq, Structural)]
pub struct BrainState {
    pub connected: bool,
    pub registered: bool,
    pub space_ok: bool,
}

/// What is done next to reach the index.
#[derive(Debug)]
pub enum BrainStep {
    /// It is reached.
    Ready,
    /// It cannot be reached.
    Unavailable { message: String },
    /// Start the program that serves it.
    Spawn { executable: String },
    /// Ask for its spaces.
    ListSpaces,
    /// Register the workspace.
    Register,
}

/// A space of the index.
#[derive(Debug)]
pub struct BrainSpace {
    pub id: String,
    pub name: String,
}

/// Whether a space goes by a name.
pub open spec fn goes_by(space: BrainSpace, name: Seq<char>) -> bool {
    space.id@ == name || space.name@ == name
}

/// The same texts again, or the given ones where there are none.
fn copy_globs(given: &Option<Vec<String>>, default: Vec<String>) -> (r: Vec<String>)
    ensures
        views(r@) == match given {
            Some(v) => views(v@),
            None => views(default@),
        },
{
    match given {
        None => default,
        Some(v) => copy_texts(v),
    }
}

/// Whether a message says that the index cannot be reached, and why.
pub open spec fn unavailable(reason: Seq<char>) -> Seq<char> {
    "workspace_search is unavailable: "@ + reason
}

/// Whether this is the index of a workspace with these settings.
pub open spec fn is_index_of(
    s: BrainWorkspaceSearch,
    root: Seq<char>,
    brain_dir: Seq<char>,
    settings: WorkspaceSearchSettings,
) -> bool {
    &&& s.root@ == root
    &&& is_alias_of(s.alias@, root)
    &&& opt_view(s.endpoint_executable) == opt_view(settings.executable)
    &&& s.brain_dir@ == brain_dir
    &&& s.space@ == settings.space@
    &&& views(s.include_globs@) == match settings.include_globs {
        Some(globs) => views(globs@),
        None => included_globs(),
    }
    &&& views(s.exclude_globs@) == match settings.exclude_globs {
        Some(globs) => views(globs@),
        None => excluded_globs(),
    }
    &&& s.max_file_bytes == settings.max_file_bytes
}

impl BrainWorkspaceSearch {
    /// The index of a workspace, before anything is done to reach it. Without a place for
    /// its data there is none.
    pub fn new(
        root: String,
        brain_dir: Option<String>,
        settings: &WorkspaceSearchSettings,
    ) -> (r: Result<Self, String>)
        ensures
            match r {
                Ok(s) => brain_dir is Some && is_index_of(
                    s,
                    root@,
                    brain_dir->0@,
                    *settings,
                ),
                Err(e) => brain_dir is None && e@ == unavailable(
                    "cannot resolve the brain store directory (set OXI_BRAIN_DIR). Use grep for exact search and read to inspect files."@,
                ),
            },
    {
        let dir = match brain_dir {
            Some(dir) => dir,
            None => {
                let mut message = "workspace_search is unavailable: ".to_owned();
                message.append(
                    "cannot resolve the brain store directory (set OXI_BRAIN_DIR). Use grep for exact search and read to inspect files.",
                );
                return Err(message);
            },
        };
        let alias = root_alias(root.as_str());
        let include_globs = copy_globs(&settings.include_globs, default_included());
        let exclude_globs = copy_globs(&settings.exclude_globs, default_excluded());
        Ok(
            BrainWorkspaceSearch {
                root,
                alias,
                endpoint_executable: crate::messages::copy_opt(&settings.executable),
                brain_dir: dir,
                space: settings.space.clone(),
                include_globs,
                exclude_globs,
                max_file_bytes: settings.max_file_bytes,
            },
        )
    }

    /// What is done next to reach the index: the program is started, the space is looked
    /// up and the workspace is registered, each once. Without the program nothing is.
    pub fn ensure_ready(&self, state: &BrainState, executable: Option<&str>) -> (r: BrainStep)
        ensures
            match r {
                BrainStep::Ready => state.connected && state.space_ok && state.registered,
                BrainStep::Unavailable { message } => !(state.connected && state.space_ok
                    && state.registered) && executable is None && message@ == unavailable(
                    "the oxibrain executable was not found (set workspace_search.executable in settings). Use grep for exact search and read to inspect files."@,
                ),
                BrainStep::Spawn { executable: exe } => executable is Some && !state.connected
                    && exe@ == executable->0@,
                BrainStep::ListSpaces => executable is Some && state.connected && !state.space_ok,
                BrainStep::Register => executable is Some && state.connected && state.space_ok
                    && !state.registered,
            },
    {
        if state.registered && state.space_ok && state.connected {
            return BrainStep::Ready;
        }
        let exe = match executable {
            Some(exe) => exe,
            None => {
                let mut message = "workspace_search is unavailable: ".to_owned();
                message.append(
                    "the oxibrain executable was not found (set workspace_search.executable in settings). Use grep for exact search and read to inspect files.",
                );
                return BrainStep::Unavailable { message };
            },
        };
        if !state.connected {
            BrainStep::Spawn { executable: exe.to_owned() }
        } else if !state.space_ok {
            BrainStep::ListSpaces
        } else {
            BrainStep::Register
        }
    }

    /// Takes what came of starting the program.
    pub fn on_spawned(&self, state: &mut BrainState, outcome: Result<(), String>) -> (r: Result<
        (),
        String,
    >)
        ensures
            match outcome {
                Ok(_) => r is Ok && *final(state) == (BrainState { connected: true, ..*old(state) }),
                Err(e) => r is Err && *final(state) == *old(state) && r->Err_0@ == unavailable(
                    "cannot spawn the oxibrain child ("@ + e@ + "). Use grep/read."@,
                ),
            },
    {
        match outcome {
            Ok(_) => {
                state.connected = true;
                Ok(())
            },
            Err(e) => {
                let mut reason = "cannot spawn the oxibrain child (".to_owned();
                reason.append(e.as_str());
                reason.append("). Use grep/read.");
                let mut message = "workspace_search is unavailable: ".to_owned();
                message.append(reason.as_str());
                Err(message)
            },
        }
    }

    /// Takes the spaces of the index: one of them must go by the name of the settings.
    pub fn on_spaces(
        &self,
        state: &mut BrainState,
        outcome: Result<Vec<BrainSpace>, String>,
    ) -> (r: Result<(), String>)
        ensures
            match outcome {
                Err(e) => r is Err && *final(state) == *old(state) && r->Err_0@ == unavailable(
                    e@ + ". Use grep/read."@,
                ),
                Ok(spaces) => if exists|i: int|
                    0 <= i < spaces@.len() && goes_by(#[trigger] spaces@[i], self.space@) {
                    r is Ok && *final(state) == (BrainState { space_ok: true, ..*old(state) })
                } else {
                    r is Err && *final(state) == *old(state) && r->Err_0@ == unavailable(
                        "brain space '"@ + self.space@
                            + "' does not exist (create it with oxibrain tooling). Use grep/read."@,
                    )
                },
            },
    {
        let spaces = match outcome {
            Ok(spaces) => spaces,
            Err(e) => {
                let mut reason = e;
                reason.append(". Use grep/read.");
                let mut message = "workspace_search is unavailable: ".to_owned();
                message.append(reason.as_str());
                return Err(message);
            },
        };
        let mut found = false;
        let mut i: usize = 0;
        while i < spaces.len()
            invariant
                i <= spaces@.len(),
                found == (exists|j: int|
                    0 <= j < i && goes_by(#[trigger] spaces@[j], self.space@)),
            decreases spaces@.len() - i,
        {
            if str_eq(spaces[i].id.as_str(), self.space.as_str()) || str_eq(
                spaces[i].name.as_str(),
                self.space.as_str(),
            ) {
                proof {
                    assert(goes_by(spaces@[i as int], self.space@));
                }
                found = true;
            }
            i += 1;
        }
        if !found {
            let mut reason = "brain space '".to_owned();
            reason.append(self.space.as_str());
            reason.append("' does not exist (create it with oxibrain tooling). Use grep/read.");
            let mut message = "workspace_search is unavailable: ".to_owned();
            message.append(reason.as_str());
            return Err(message);
        }
        state.space_ok = true;
        Ok(())
    }

    /// Takes what came of registering the workspace.
    pub fn on_registered(&self, state: &mut BrainState, outcome: Result<(), String>) -> (r: Result<
        (),
        String,
    >)
        ensures
            match outcome {
                Ok(_) => r is Ok && *final(state) == (BrainState { registered: true, ..*old(state) }),
                Err(e) => r is Err && *final(state) == *old(state) && r->Err_0@ == unavailable(
                    "root registration failed: "@ + e@ + ". Use grep/read."@,
                ),
            },
    {
        match outcome {
            Ok(_) => {
                state.registered = true;
                Ok(())
            },
            Err(e) => {
                let mut reason = "root registration failed: ".to_owned();
                reason.append(e.as_str());
                reason.append(". Use grep/read.");
                let mut message = "workspace_search is unavailable: ".to_owned();
                message.append(reason.as_str());
                Err(message)
            },
        }
    }
}

/// The passages that are asked of the index for a limit: three for one, since those of
/// other workspaces are left out, but neither too few nor too many.
pub open spec fn fetch_size(limit: nat) -> nat {
    if limit * 3 < 12 {
        12
    } else if limit * 3 > 48 {
        48
    } else {
        limit * 3
    }
}

/// The passages that are asked of the index for a limit.
pub fn fetch_count(limit: usize) -> (r: usize)
    ensures
        r == fetch_size(limit as nat),
{
    if limit < 4 {
        12
    } else if limit > 16 {
        48
    } else {
        limit * 3
    }
}

/// A passage that the index found, in the workspace that it names.
#[derive(Debug)]
pub struct DocumentHit {
    pub root: String,
    pub passage: SearchPassage,
}

/// The passages of a workspace, at most so many.
pub open spec fn own_passages(hits: Seq<DocumentHit>, alias: Seq<char>, limit: nat) -> Seq<
    SearchPassage,
>
    decreases hits.len(),
{
    if hits.len() == 0 {
        Seq::empty()
    } else {
        let front = own_passages(hits.drop_last(), alias, limit);
        if hits.last().root@ == alias && front.len() < limit {
            front.push(hits.last().passage)
        } else {
            front
        }
    }
}

/// The passages of a workspace, in their order and at most so many.
pub fn take_own_passages(hits: Vec<DocumentHit>, alias: &str, limit: usize) -> (r: Vec<
    SearchPassage,
>)
    ensures
        r@ == own_passages(hits@, alias@, limit as nat),
{
    let ghost all = hits@;
    let mut rest = hits;
    let mut reversed: Vec<DocumentHit> = Vec::new();
    while rest.len() > 0
        invariant
            rest@.len() + reversed@.len() == all.len(),
            rest@ == all.take(rest@.len() as int),
            forall|j: int|
                0 <= j < reversed@.len() ==> #[trigger] reversed@[j] == all[all.len() - 1 - j],
        decreases rest@.len(),
    {
        let ghost n = rest@.len();
        let hit = rest.pop().unwrap();
        reversed.push(hit);
        proof {
            assert(rest@ =~= all.take(n - 1));
        }
    }
    let mut out: Vec<SearchPassage> = Vec::new();
    proof {
        assert(all.take(0) =~= Seq::empty());
    }
    while reversed.len() > 0
        invariant
            reversed@.len() <= all.len(),
            forall|j: int|
                0 <= j < reversed@.len() ==> #[trigger] reversed@[j] == all[all.len() - 1 - j],
            out@ == own_passages(all.take(all.len() - reversed@.len()), alias@, limit as nat),
        decreases reversed@.len(),
    {
        let ghost k = all.len() - reversed@.len();
        let DocumentHit { root, passage } = reversed.pop().unwrap();
        proof {
            assert(all.take(k + 1).drop_last() =~= all.take(k));
            assert(all.take(k + 1).last() == all[k]);
        }
        if str_eq(root.as_str(), alias) && out.len() < limit {
            out.push(passage);
        }
    }
    proof {
        assert(all.take(all.len() as int) =~= all);
    }
    out
}

/// A search never gives more passages than asked for, and none of another workspace.
pub proof fn lemma_own_passages(hits: Seq<DocumentHit>, alias: Seq<char>, limit: nat)
    ensures
        own_passages(hits, alias, limit).len() <= limit,
        forall|i: int|
            0 <= i < own_passages(hits, alias, limit).len() ==> exists|k: int|
                0 <= k < hits.len() && (#[trigger] hits[k]).root@ == alias && hits[k].passage
                    == #[trigger] own_passages(hits, alias, limit)[i],
    decreases hits.len(),
{
    if hits.len() > 0 {
        let front = hits.drop_last();
        lemma_own_passages(front, alias, limit);
        let fp = own_passages(front, alias, limit);
        let all = own_passages(hits, alias, limit);
        assert forall|i: int| 0 <= i < all.len() implies exists|k: int|
            0 <= k < hits.len() && (#[trigger] hits[k]).root@ == alias && hits[k].passage
                == #[trigger] all[i] by {
            if i < fp.len() {
                assert(all[i] == fp[i]);
                let k = choose|k: int|
                    0 <= k < front.len() && (#[trigger] front[k]).root@ == alias
                        && front[k].passage == fp[i];
                assert(hits[k] == front[k]);
            } else {
                assert(hits[hits.len() - 1].root@ == alias);
            }
        }
    }
}

/// A root that was left out, and why.
#[derive(Debug)]
pub struct SkippedRoot {
    pub alias: String,
    pub reason: String,
}

/// How fresh the index is. The coverage is a whole number of hundredths, as it is shown.
#[derive(Debug)]
pub struct DocumentFreshness {
    pub reconciled_roots: Vec<String>,
    pub skipped_roots: Vec<SkippedRoot>,
    pub dense_coverage: Option<String>,
}

/// The roots that were left out, each with its reason.
pub open spec fn skipped_texts(roots: Seq<SkippedRoot>) -> Seq<Seq<char>> {
    Seq::new(roots.len(), |i: int| roots[i].alias@ + " ("@ + roots[i].reason@ + ")"@)
}

/// What the line on the freshness says, part by part.
pub open spec fn freshness_parts(f: DocumentFreshness) -> Seq<Seq<char>> {
    let first = seq!["reconciled: "@ + join(views(f.reconciled_roots@), ", "@)];
    let second = if f.skipped_roots@.len() == 0 {
        first
    } else {
        first.push("skipped: "@ + join(skipped_texts(f.skipped_roots@), ", "@))
    };
    match f.dense_coverage {
        Some(c) => second.push("dense coverage: "@ + c@ + "%"@),
        None => second,
    }
}

/// The line on how fresh the index is.
pub fn freshness_line(f: &DocumentFreshness) -> (r: String)
    ensures
        r@ == join(freshness_parts(*f), "; "@),
{
    let mut parts: Vec<String> = Vec::new();
    let mut first = "reconciled: ".to_owned();
    first.append(join_texts(f.reconciled_roots.as_slice(), ", ").as_str());
    parts.push(first);
    if f.skipped_roots.len() > 0 {
        let mut texts: Vec<String> = Vec::new();
        let mut i: usize = 0;
        while i < f.skipped_roots.len()
            invariant
                i <= f.skipped_roots@.len(),
                out_of(texts@, f.skipped_roots@, i as int),
            decreases f.skipped_roots@.len() - i,
        {
            let mut text = f.skipped_roots[i].alias.clone();
            text.append(" (");
            text.append(f.skipped_roots[i].reason.as_str());
            text.append(")");
            texts.push(text);
            i += 1;
        }
        proof {
            assert(views(texts@) =~= skipped_texts(f.skipped_roots@));
        }
        let mut second = "skipped: ".to_owned();
        second.append(join_texts(texts.as_slice(), ", ").as_str());
        parts.push(second);
    }
    match &f.dense_coverage {
        Some(c) => {
            let mut third = "dense coverage: ".to_owned();
            third.append(c.as_str());
            third.append("%");
            parts.push(third);
        },
        None => {},
    }
    proof {
        assert(views(parts@) =~= freshness_parts(*f));
    }
    join_texts(parts.as_slice(), "; ")
}

/// Whether the first `n` roots are shown.
spec fn out_of(texts: Seq<String>, roots: Seq<SkippedRoot>, n: int) -> bool {
    texts.len() == n && forall|j: int|
        0 <= j < n ==> (#[trigger] texts[j])@ == roots[j].alias@ + " ("@ + roots[j].reason@ + ")"@
}

/// The page for what the index answered.
pub fn search_page(
    answer: Result<(Vec<DocumentHit>, DocumentFreshness), String>,
    alias: &str,
    limit: usize,
) -> (r: Result<WorkspaceSearchPage, String>)
    ensures
        match answer {
            Ok(found) => r is Ok && r->Ok_0.passages@ == own_passages(found.0@, alias@, limit as nat)
                && opt_view(r->Ok_0.freshness) == Some(join(freshness_parts(found.1), "; "@)),
            Err(e) => r is Err && r->Err_0@ == "workspace_search failed: "@ + e@
                + ". Use grep/read."@,
        },
{
    match answer {
        Ok((hits, freshness)) => {
            let line = freshness_line(&freshness);
            Ok(
                WorkspaceSearchPage {
                    passages: take_own_passages(hits, alias, limit),
                    freshness: Some(line),
                },
            )
        },
        Err(e) => {
            let mut message = "workspace_search failed: ".to_owned();
            message.append(e.as_str());
            message.append(". Use grep/read.");
            Err(message)
        },
    }
}

/// The index of a workspace, where the settings turn the search on and the workspace may
/// be searched.
pub fn create_workspace_search_backend(
    settings: &Settings,
    validated_root: Result<String, String>,
    brain_dir: Option<String>,
) -> (r: Option<BrainWorkspaceSearch>)
    ensures
        r is Some == (settings.workspace_search.enabled && validated_root is Ok && brain_dir is Some),
        r is Some ==> is_index_of(
            r->0,
            validated_root->Ok_0@,
            brain_dir->0@,
            settings.workspace_search,
        ),
{
    if !settings.workspace_search.enabled {
        return None;
    }
    match validated_root {
        Err(_) => None,
        Ok(root) => match BrainWorkspaceSearch::new(
            root,
            brain_dir,
            &settings.workspace_search,
        ) {
            Ok(backend) => Some(backend),
            Err(_) => None,
        },
    }
}

/// A search that is off by default stays off: no index is made for the settings before
/// any file is read.
pub proof fn lemma_default_is_off(settings: Settings)
    requires
        crate::settings::is_default_settings(settings),
    ensures
        !settings.workspace_search.enabled,
{
}

/// A search gives the passages of the hits in the workspace, in the order of the hits: all of
/// them, or as many of the first as asked for.
pub proof fn lemma_own_passages_in_turn(hits: Seq<DocumentHit>, alias: Seq<char>, limit: nat)
    ensures
        ({
            let all = Seq::new(
                hits.len(),
                |k: int|
                    if hits[k].root@ == alias {
                        seq![hits[k].passage]
                    } else {
                        Seq::<SearchPassage>::empty()
                    },
            ).flatten();
            own_passages(hits, alias, limit) == if all.len() <= limit {
                all
            } else {
                all.take(limit as int)
            }
        }),
    decreases hits.len(),
{
    let parts = Seq::new(
        hits.len(),
        |k: int|
            if hits[k].root@ == alias {
                seq![hits[k].passage]
            } else {
                Seq::<SearchPassage>::empty()
            },
    );
    if hits.len() > 0 {
        let front = hits.drop_last();
        lemma_own_passages_in_turn(front, alias, limit);
        let before = Seq::new(
            front.len(),
            |k: int|
                if front[k].root@ == alias {
                    seq![front[k].passage]
                } else {
                    Seq::<SearchPassage>::empty()
                },
        );
        assert(parts =~= before.push(parts.last()));
        before.lemma_flatten_push(parts.last());
        let all = parts.flatten();
        assert(own_passages(hits, alias, limit) =~= if all.len() <= limit {
            all
        } else {
            all.take(limit as int)
        });
    } else {
        assert(parts.flatten() =~= Seq::empty());
    }
}

/// The line on the freshness names the roots that were brought up to date, then those that
/// were left out, where there are any, each with its reason, then how much is covered, where
/// that is known.
pub proof fn lemma_freshness_is_told(f: DocumentFreshness)
    ensures
        join(freshness_parts(f), "; "@) == "reconciled: "@ + join(
            Seq::new(f.reconciled_roots@.len(), |i: int| f.reconciled_roots@[i]@),
            ", "@,
        ) + (if f.skipped_roots@.len() == 0 {
            Seq::empty()
        } else {
            "; skipped: "@ + join(
                Seq::new(
                    f.skipped_roots@.len(),
                    |i: int|
                        f.skipped_roots@[i].alias@ + " ("@ + f.skipped_roots@[i].reason@ + ")"@,
                ),
                ", "@,
            )
        }) + (if f.dense_coverage is Some {
            "; dense coverage: "@ + f.dense_coverage->0@ + "%"@
        } else {
            Seq::empty()
        }),
{
    reveal_strlit("; ");
    reveal_strlit("skipped: ");
    reveal_strlit("; skipped: ");
    reveal_strlit("dense coverage: ");
    reveal_strlit("; dense coverage: ");
    let roots = Seq::new(f.reconciled_roots@.len(), |i: int| f.reconciled_roots@[i]@);
    assert(views(f.reconciled_roots@) =~= roots);
    let skipped = Seq::new(
        f.skipped_roots@.len(),
        |i: int| f.skipped_roots@[i].alias@ + " ("@ + f.skipped_roots@[i].reason@ + ")"@,
    );
    assert(skipped_texts(f.skipped_roots@) =~= skipped);
    let first = seq!["reconciled: "@ + join(roots, ", "@)];
    assert(join(first, "; "@) == first[0]);
    let second = if skipped.len() == 0 {
        first
    } else {
        first.push("skipped: "@ + join(skipped, ", "@))
    };
    if skipped.len() > 0 {
        assert(second.drop_last() =~= first);
        assert("; "@ + ("skipped: "@ + join(skipped, ", "@)) =~= "; skipped: "@ + join(
            skipped,
            ", "@,
        ));
        assert(join(second, "; "@) =~= first[0] + ("; skipped: "@ + join(skipped, ", "@)));
    } else {
        assert(join(second, "; "@) =~= first[0] + Seq::<char>::empty());
    }
    if f.dense_coverage is Some {
        let last = "dense coverage: "@ + f.dense_coverage->0@ + "%"@;
        let third = second.push(last);
        assert(third.drop_last() =~= second);
        assert("; "@ + last =~= "; dense coverage: "@ + f.dense_coverage->0@ + "%"@);
        assert(join(third, "; "@) =~= join(second, "; "@) + ("; "@ + last));
    }
}

/// For a limit the index is asked for three times as many passages, but for no fewer than
/// twelve and no more than forty-eight.
pub proof fn lemma_fetch_size_is_bounded(limit: nat)
    ensures
        12 <= fetch_size(limit) <= 48,
        4 <= limit <= 16 ==> fetch_size(limit) == 3 * limit,
        limit <= 4 ==> fetch_size(limit) == 12,
        limit >= 16 ==> fetch_size(limit) == 48,
{
}

/// The alias of a workspace tells two paths in directories of one name apart exactly where
/// the lowest thirty-two bits of their numbers differ.
pub proof fn lemma_alias_tells_low_bits(name: Option<Seq<char>>, first: u64, second: u64)
    ensures
        alias_text(name, first) == alias_text(name, second) <==> first % 0x1_0000_0000 == second
            % 0x1_0000_0000,
        alias_text(name, first).len() == (if name is Some {
            name->0.len()
        } else {
            9
        }) + 12,
        name is Some ==> ("ws-"@ + name->0 + "-"@).is_prefix_of(alias_text(name, first)),
        name is None ==> ("ws-workspace-"@).is_prefix_of(alias_text(name, first)),
{
    lemma_aliases_differ(name, first, name, second);
    crate::text::lemma_hex_tells_low_digits(first as nat, second as nat, 8);
    lemma_hex_len(first as nat, 8);
    reveal_strlit("ws-");
    reveal_strlit("-");
    reveal_strlit("workspace");
    reveal_strlit("ws-workspace-");
    assert(vstd::arithmetic::power::pow(16, 8) == 0x1_0000_0000) by {
        reveal_with_fuel(vstd::arithmetic::power::pow, 9);
    }
    let alias = alias_text(name, first);
    if name is Some {
        let head = "ws-"@ + name->0 + "-"@;
        assert(head =~= alias.subrange(0, head.len() as int));
    } else {
        let head = "ws-workspace-"@;
        assert(head =~= "ws-"@ + "workspace"@ + "-"@);
        assert(head =~= alias.subrange(0, head.len() as int));
    }
}

/// The index of a workspace is that of its directory, with what the settings say; where they
/// say nothing of the files, the usual ones are indexed and the usual ones left out.
pub proof fn lemma_index_follows_settings(
    s: BrainWorkspaceSearch,
    root: Seq<char>,
    brain_dir: Seq<char>,
    settings: WorkspaceSearchSettings,
)
    requires
        is_index_of(s, root, brain_dir, settings),
    ensures
        s.root@ == root,
        s.brain_dir@ == brain_dir,
        s.space@ == settings.space@,
        s.max_file_bytes == settings.max_file_bytes,
        settings.executable is Some ==> s.endpoint_executable is Some
            && s.endpoint_executable->0@ == settings.executable->0@,
        settings.executable is None ==> s.endpoint_executable is None,
        settings.include_globs is Some ==> views(s.include_globs@) == views(
            settings.include_globs->0@,
        ),
        settings.include_globs is None ==> views(s.include_globs@) == included_globs(),
        settings.exclude_globs is Some ==> views(s.exclude_globs@) == views(
            settings.exclude_globs->0@,
        ),
        settings.exclude_globs is None ==> views(s.exclude_globs@) == excluded_globs(),
{
}

/// The index keeps its data where it is told to, else below the home; and a space goes by
/// its identifier and by its name.
pub proof fn lemma_brain_dir_when(
    set: Option<Seq<char>>,
    home: Option<Seq<char>>,
    space: BrainSpace,
    name: Seq<char>,
)
    ensures
        set is Some ==> brain_dir_of(set, home) == set,
        set is None && home is Some ==> brain_dir_of(set, home) == Some(
            path_join(path_join(home->0, ".oxi"@), "brain"@),
        ),
        set is None && home is None ==> brain_dir_of(set, home) is None,
        goes_by(space, name) <==> name == space.id@ || name == space.name@,
{
}

} // verus!
