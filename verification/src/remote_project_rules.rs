//! The decisions behind keeping a repository's project rules (`WARP.md`,
//! `AGENTS.md`) up to date.
//!
//! Each refresh of a repository is stamped with a fresh generation; a refresh
//! result is applied only while its generation is still the latest one issued
//! for that repository, so a slow, superseded refresh can never overwrite a
//! newer one. The functions here decide what to do next and hand back an
//! action; whoever drives the model performs the action (reading repository
//! metadata, files, or a remote host) and reports back.
use vstd::prelude::*;
use vstd::utf8::encode_utf8;

verus! {

/// A location on a remote host.
#[derive(Debug, PartialEq, Eq)]
pub struct RemotePath {
    pub host_id: String,
    pub path: String,
}

/// A path that is either on this machine or on a remote host.
#[derive(Debug, PartialEq, Eq)]
pub enum LocalOrRemotePath {
    Local(String),
    Remote(RemotePath),
}

/// A repository, by its root: a local directory or a directory on a remote host.
#[derive(Debug, PartialEq, Eq)]
pub enum RepositoryIdentifier {
    Local(String),
    Remote(RemotePath),
}

/// A place, as the contracts see it: a local path, or a host and a path there.
pub enum Location {
    Local(Seq<char>),
    Remote { host: Seq<char>, path: Seq<char> },
}

/// A project rule file and its text.
#[derive(Debug, PartialEq, Eq)]
pub struct ProjectRule {
    pub path: LocalOrRemotePath,
    pub content: String,
}

/// How much of a local repository's file tree the metadata index covers.
#[derive(Debug, PartialEq, Eq, Clone, Copy)]
pub enum RepositoryCoverage {
    Complete,
    Degraded,
}

/// A file of a repository's metadata tree, with what the tree says of it: its
/// path there, its file name (when it has one) and, for a local repository,
/// the same path on this machine (when it can be expressed there).
#[derive(Debug, PartialEq, Eq)]
pub struct RepoFile {
    pub path: String,
    pub file_name: Option<String>,
    pub local_path: Option<String>,
}

/// An entry of a repository's metadata tree.
#[derive(Debug, PartialEq, Eq)]
pub enum RepoContent {
    File(RepoFile),
    Directory(String),
}

/// One file of a remote host's answer to a read request: the requested
/// name, and its text when the host returned text.
#[derive(Debug, PartialEq, Eq)]
pub struct FileContext {
    pub file_name: String,
    pub text_content: Option<String>,
}

/// Something that happened in the repository metadata.
#[derive(Debug, PartialEq, Eq)]
pub enum RepoMetadataEvent {
    RepositoryUpdated { id: RepositoryIdentifier },
    FileTreeEntryUpdated { id: RepositoryIdentifier },
    FileTreeUpdated { ids: Vec<RepositoryIdentifier> },
    RepositoryRemoved { id: RepositoryIdentifier },
    UpdatingRepositoryFailed { id: RepositoryIdentifier },
    IncrementalUpdateReady,
}

/// Replace the rules known under `root_path` by `rules`.
#[derive(Debug, PartialEq, Eq)]
pub struct RulesReplacement {
    pub root_path: LocalOrRemotePath,
    pub rules: Vec<ProjectRule>,
}

/// What a metadata event asks for.
#[derive(Debug, PartialEq, Eq)]
pub enum MetadataEventAction {
    /// Refresh these repositories, in order.
    Refresh(Vec<RepositoryIdentifier>),
    /// Apply this replacement.
    ReplaceRules(RulesReplacement),
    /// Nothing to do.
    Nothing,
}

/// The next step of a refresh.
#[derive(Debug, PartialEq, Eq)]
pub enum RefreshAction {
    /// Nothing to refresh yet (the metadata of the local repository is not ready).
    Skip,
    /// Index the rules of this local directory straight from the file system.
    UseFilesystemFallback { root: String },
    /// List the rule files of the repository's metadata tree and continue with
    /// `plan_rule_hydration` under this generation.
    ListRuleFiles { generation: u64 },
}

/// How the rule files that a refresh found are turned into rules.
#[derive(Debug, PartialEq, Eq)]
pub enum HydrationPlan {
    /// Apply this replacement now.
    Replace(RulesReplacement),
    /// Drop the result: a newer refresh has started.
    Discard,
    /// Read these local rule files; then offer the rules read to
    /// `replace_rules_if_current` for `root_path`.
    ReadLocalFiles { root_path: LocalOrRemotePath, rule_paths: Vec<LocalOrRemotePath> },
    /// Ask `host_id` for the text of `request_paths`; then hand the answer to
    /// `assemble_remote_rules` with `rule_paths`, and offer the result to
    /// `replace_rules_if_current` for `root_path`.
    RequestRemoteFiles {
        host_id: String,
        root_path: LocalOrRemotePath,
        request_paths: Vec<String>,
        rule_paths: Vec<LocalOrRemotePath>,
    },
}

/// A metadata tree entry, as the contracts see it.
pub enum RepoContentView {
    File { path: Seq<char>, file_name: Option<Seq<char>>, local_path: Option<Seq<char>> },
    Directory { path: Seq<char> },
}

impl View for RepoContent {
    type V = RepoContentView;

    open spec fn view(&self) -> RepoContentView {
        match self {
            RepoContent::File(file) => RepoContentView::File {
                path: file.path@,
                file_name: file.file_name.deep_view(),
                local_path: file.local_path.deep_view(),
            },
            RepoContent::Directory(path) => RepoContentView::Directory { path: path@ },
        }
    }
}

impl View for ProjectRule {
    type V = (Location, Seq<char>);

    open spec fn view(&self) -> (Location, Seq<char>) {
        (self.path@, self.content@)
    }
}

impl View for FileContext {
    type V = (Seq<char>, Option<Seq<char>>);

    open spec fn view(&self) -> (Seq<char>, Option<Seq<char>>) {
        (self.file_name@, self.text_content.deep_view())
    }
}

/// The locations of a sequence of paths.
pub open spec fn path_locations(paths: Seq<LocalOrRemotePath>) -> Seq<Location> {
    paths.map_values(|p: LocalOrRemotePath| p@)
}

/// The locations of a sequence of repositories.
pub open spec fn repository_locations(ids: Seq<RepositoryIdentifier>) -> Seq<Location> {
    ids.map_values(|id: RepositoryIdentifier| id@)
}

/// The texts of a sequence of strings.
pub open spec fn texts(strings: Seq<String>) -> Seq<Seq<char>> {
    strings.map_values(|s: String| s@)
}

/// The views of a sequence of rules.
pub open spec fn rule_views(rules: Seq<ProjectRule>) -> Seq<(Location, Seq<char>)> {
    rules.map_values(|r: ProjectRule| r@)
}

/// The views of a sequence of metadata tree entries.
pub open spec fn content_views(contents: Seq<RepoContent>) -> Seq<RepoContentView> {
    contents.map_values(|c: RepoContent| c@)
}

/// The views of a host's answer.
pub open spec fn context_views(contexts: Seq<FileContext>) -> Seq<(Seq<char>, Option<Seq<char>>)> {
    contexts.map_values(|c: FileContext| c@)
}

/// Keeps the remote repositories, in order.
pub open spec fn remote_only(ids: Seq<Location>) -> Seq<Location> {
    ids.filter_map(|id: Location| if id is Remote { Some(id) } else { None })
}

/// Where a metadata tree entry of `repository` is a project rule file, the
/// path of that file: on this machine for a local repository (when the tree
/// gives one), on the repository's host for a remote one.
pub open spec fn rule_file_location(repository: Location, entry: RepoContentView) -> Option<Location> {
    match entry {
        RepoContentView::File { path, file_name, local_path } => {
            if file_name matches Some(name) && is_project_rule_file_name(name) {
                match repository {
                    Location::Local(_) => match local_path {
                        Some(local) => Some(Location::Local(local)),
                        None => None,
                    },
                    Location::Remote { host, path: _ } => Some(Location::Remote { host, path }),
                }
            } else {
                None
            }
        },
        RepoContentView::Directory { .. } => None,
    }
}

/// The rule files of a repository's metadata tree, in tree order.
pub open spec fn rule_files(repository: Location, contents: Seq<RepoContentView>) -> Seq<Location> {
    contents.filter_map(|entry: RepoContentView| rule_file_location(repository, entry))
}

/// The paths to ask a remote host for: those of the remote rule files, in order.
pub open spec fn remote_request_paths(rule_paths: Seq<Location>) -> Seq<Seq<char>> {
    rule_paths.filter_map(
        |p: Location|
            match p {
                Location::Remote { host: _, path } => Some(path),
                Location::Local(_) => None,
            },
    )
}

/// The text a host's answer gives for `name`: that of the last answered file
/// of that name that came back as text.
pub open spec fn answered_text(contexts: Seq<(Seq<char>, Option<Seq<char>>)>, name: Seq<char>) -> Option<
    Seq<char>,
>
    decreases contexts.len(),
{
    if contexts.len() == 0 {
        None
    } else if contexts.last().0 == name && contexts.last().1 is Some {
        contexts.last().1
    } else {
        answered_text(contexts.drop_last(), name)
    }
}

/// The rules a host's answer yields: one for each remote rule file whose text
/// came back, in the order of the rule files.
pub open spec fn remote_rules(
    rule_paths: Seq<Location>,
    contexts: Seq<(Seq<char>, Option<Seq<char>>)>,
) -> Seq<(Location, Seq<char>)> {
    rule_paths.filter_map(
        |p: Location|
            match p {
                Location::Remote { host: _, path } => match answered_text(contexts, path) {
                    Some(text) => Some((p, text)),
                    None => None,
                },
                Location::Local(_) => None,
            },
    )
}

/// No repository yields no repositories to refresh.
pub proof fn lemma_remote_only_empty()
    ensures
        remote_only(Seq::<Location>::empty()) == Seq::<Location>::empty(),
{
}

/// Appending a repository to a changed file tree's list appends it to the
/// repositories to refresh exactly when it is remote; the earlier ones keep
/// their place.
pub proof fn lemma_remote_only_push(ids: Seq<Location>, id: Location)
    ensures
        id is Remote ==> remote_only(ids.push(id)) == remote_only(ids).push(id),
        id is Local ==> remote_only(ids.push(id)) == remote_only(ids),
{
    assert(ids.push(id).drop_last() =~= ids);
    assert(remote_only(ids) + seq![id] =~= remote_only(ids).push(id));
}

/// Listing a tree with one more entry lists what the shorter tree lists and,
/// after it, the new entry when that entry is a file named like a rule file
/// (any ASCII case): for a remote repository its path on the repository's
/// host, for a local one its local path (nothing when it has none).
pub proof fn lemma_rule_files_push(repository: Location, contents: Seq<RepoContentView>, entry: RepoContentView)
    ensures
        rule_files(repository, contents.push(entry)) == match entry {
            RepoContentView::File { path, file_name: Some(name), local_path } => if is_project_rule_file_name(
                name,
            ) {
                match repository {
                    Location::Remote { host, path: _ } => rule_files(repository, contents).push(
                        Location::Remote { host, path },
                    ),
                    Location::Local(_) => match local_path {
                        Some(local) => rule_files(repository, contents).push(Location::Local(local)),
                        None => rule_files(repository, contents),
                    },
                }
            } else {
                rule_files(repository, contents)
            },
            _ => rule_files(repository, contents),
        },
{
    assert(contents.push(entry).drop_last() =~= contents);
    let prev = rule_files(repository, contents);
    match rule_file_location(repository, entry) {
        Some(b) => {
            assert(prev + seq![b] =~= prev.push(b));
        },
        None => {},
    }
}

/// An empty tree lists no rule file.
pub proof fn lemma_rule_files_empty(repository: Location)
    ensures
        rule_files(repository, Seq::<RepoContentView>::empty()) == Seq::<Location>::empty(),
{
}

/// The request for one more rule file asks for what the shorter request asks
/// for and, after it, the path of the new file when it is remote.
pub proof fn lemma_remote_request_paths_push(rule_paths: Seq<Location>, p: Location)
    ensures
        p is Remote ==> remote_request_paths(rule_paths.push(p)) == remote_request_paths(rule_paths).push(
            p->path,
        ),
        p is Local ==> remote_request_paths(rule_paths.push(p)) == remote_request_paths(rule_paths),
{
    assert(rule_paths.push(p).drop_last() =~= rule_paths);
    if let Location::Remote { host: _, path } = p {
        assert(remote_request_paths(rule_paths) + seq![path] =~= remote_request_paths(rule_paths).push(path));
    }
}

/// No rule file, no request.
pub proof fn lemma_remote_request_paths_empty()
    ensures
        remote_request_paths(Seq::<Location>::empty()) == Seq::<Seq<char>>::empty(),
{
}

/// An empty answer gives no text.
pub proof fn lemma_answered_text_empty(name: Seq<char>)
    ensures
        answered_text(Seq::<(Seq<char>, Option<Seq<char>>)>::empty(), name) is None,
{
}

/// A file answered with text, as the last of its name, gives that text; an
/// answer of another name, or one without text, leaves the text of every name
/// as it was.
pub proof fn lemma_answered_text_push(
    contexts: Seq<(Seq<char>, Option<Seq<char>>)>,
    context: (Seq<char>, Option<Seq<char>>),
    name: Seq<char>,
)
    ensures
        context.0 == name && context.1 is Some ==> answered_text(contexts.push(context), name) == context.1,
        context.0 != name || context.1 is None ==> answered_text(contexts.push(context), name) == answered_text(
            contexts,
            name,
        ),
{
    assert(contexts.push(context).drop_last() =~= contexts);
}

/// The rules of an answer for one more rule file are those for the shorter
/// list and, after them, a rule for the new file when it is remote and the
/// answer holds text for its path.
pub proof fn lemma_remote_rules_push(
    rule_paths: Seq<Location>,
    contexts: Seq<(Seq<char>, Option<Seq<char>>)>,
    p: Location,
)
    ensures
        p is Remote && answered_text(contexts, p->path) is Some ==> remote_rules(rule_paths.push(p), contexts)
            == remote_rules(rule_paths, contexts).push((p, answered_text(contexts, p->path).unwrap())),
        p is Remote && answered_text(contexts, p->path) is None ==> remote_rules(rule_paths.push(p), contexts)
            == remote_rules(rule_paths, contexts),
        p is Local ==> remote_rules(rule_paths.push(p), contexts) == remote_rules(rule_paths, contexts),
{
    assert(rule_paths.push(p).drop_last() =~= rule_paths);
    let prev = remote_rules(rule_paths, contexts);
    if let Location::Remote { host: _, path } = p {
        if let Some(text) = answered_text(contexts, path) {
            assert(prev + seq![(p, text)] =~= prev.push((p, text)));
        }
    }
}

/// No rule file, no rule.
pub proof fn lemma_remote_rules_empty(contexts: Seq<(Seq<char>, Option<Seq<char>>)>)
    ensures
        remote_rules(Seq::<Location>::empty(), contexts) == Seq::<(Location, Seq<char>)>::empty(),
{
}

proof fn lemma_filter_map_take_step<A, B>(s: Seq<A>, f: spec_fn(A) -> Option<B>, i: int)
    requires
        0 <= i < s.len(),
    ensures
        s.take(i + 1).filter_map(f) == (match f(s[i]) {
            Some(b) => s.take(i).filter_map(f).push(b),
            None => s.take(i).filter_map(f),
        }),
{
    assert(s.take(i + 1).drop_last() =~= s.take(i));
    assert(s.take(i + 1).last() == s[i]);
    match f(s[i]) {
        Some(b) => {
            assert(s.take(i).filter_map(f) + seq![b] =~= s.take(i).filter_map(f).push(b));
        },
        None => {},
    }
}

impl LocalOrRemotePath {
    /// The same path, with its own copies of the strings.
    pub fn duplicate(&self) -> (copy: Self)
        ensures
            copy@ == self@,
    {
        match self {
            LocalOrRemotePath::Local(path) => LocalOrRemotePath::Local(path.clone()),
            LocalOrRemotePath::Remote(remote) => LocalOrRemotePath::Remote(remote.duplicate()),
        }
    }
}

impl RemotePath {
    /// The same remote path, with its own copies of the strings.
    pub fn duplicate(&self) -> (copy: Self)
        ensures
            copy.host_id@ == self.host_id@,
            copy.path@ == self.path@,
    {
        RemotePath { host_id: self.host_id.clone(), path: self.path.clone() }
    }
}

impl View for LocalOrRemotePath {
    type V = Location;

    open spec fn view(&self) -> Location {
        match self {
            LocalOrRemotePath::Local(path) => Location::Local(path@),
            LocalOrRemotePath::Remote(remote) => Location::Remote { host: remote.host_id@, path: remote.path@ },
        }
    }
}

impl View for RepositoryIdentifier {
    type V = Location;

    open spec fn view(&self) -> Location {
        match self {
            RepositoryIdentifier::Local(path) => Location::Local(path@),
            RepositoryIdentifier::Remote(remote) => Location::Remote { host: remote.host_id@, path: remote.path@ },
        }
    }
}

impl RepositoryIdentifier {
    /// The same identifier, with its own copies of the strings.
    pub fn duplicate(&self) -> (copy: Self)
        ensures
            copy@ == self@,
    {
        match self {
            RepositoryIdentifier::Local(path) => RepositoryIdentifier::Local(path.clone()),
            RepositoryIdentifier::Remote(remote) => RepositoryIdentifier::Remote(remote.duplicate()),
        }
    }

    /// Whether both identifiers name the same repository.
    pub fn same_as(&self, other: &Self) -> (same: bool)
        ensures
            same == (self@ == other@),
    {
        match (self, other) {
            (RepositoryIdentifier::Local(a), RepositoryIdentifier::Local(b)) => *a == *b,
            (RepositoryIdentifier::Remote(a), RepositoryIdentifier::Remote(b)) => a.host_id == b.host_id
                && a.path == b.path,
            _ => false,
        }
    }

    /// The repository's root directory as a path.
    pub fn to_local_or_remote_path(&self) -> (root: LocalOrRemotePath)
        ensures
            root@ == self@,
    {
        match self {
            RepositoryIdentifier::Local(path) => LocalOrRemotePath::Local(path.clone()),
            RepositoryIdentifier::Remote(remote) => LocalOrRemotePath::Remote(remote.duplicate()),
        }
    }
}

/// The ASCII lower-case of a byte (`u8::to_ascii_lowercase`).
pub open spec fn ascii_lowercase(b: u8) -> u8 {
    if 65 <= b && b <= 90 {
        (b + 32) as u8
    } else {
        b
    }
}

/// Byte strings equal up to ASCII case (`<[u8]>::eq_ignore_ascii_case`).
pub open spec fn bytes_eq_ignore_ascii_case(a: Seq<u8>, b: Seq<u8>) -> bool {
    a.len() == b.len() && forall|i: int| 0 <= i < a.len() ==> #[trigger] ascii_lowercase(a[i])
        == ascii_lowercase(b[i])
}

/// The file name of a project rule file: `WARP.md` or `AGENTS.md` in any
/// ASCII case (compared on the UTF-8 bytes, as `str::eq_ignore_ascii_case` does).
pub open spec fn is_project_rule_file_name(name: Seq<char>) -> bool {
    bytes_eq_ignore_ascii_case(encode_utf8(name), encode_utf8("WARP.md"@))
        || bytes_eq_ignore_ascii_case(encode_utf8(name), encode_utf8("AGENTS.md"@))
}

/// ASCII lower-casing maps `A`..`Z` to `a`..`z` and leaves every other byte,
/// so lower-casing twice is lower-casing once.
pub proof fn lemma_ascii_lowercase(b: u8)
    ensures
        65 <= b <= 90 ==> ascii_lowercase(b) == b + 32,
        !(65 <= b <= 90) ==> ascii_lowercase(b) == b,
        ascii_lowercase(ascii_lowercase(b)) == ascii_lowercase(b),
{
}

/// Comparing up to ASCII case is reflexive and symmetric, and it never
/// equates byte strings of different lengths.
pub proof fn lemma_eq_ignore_ascii_case_basics(a: Seq<u8>, b: Seq<u8>)
    ensures
        bytes_eq_ignore_ascii_case(a, a),
        bytes_eq_ignore_ascii_case(a, b) == bytes_eq_ignore_ascii_case(b, a),
        a.len() != b.len() ==> !bytes_eq_ignore_ascii_case(a, b),
{
}

/// Rule file names ignore ASCII case: two names that differ only in the case
/// of ASCII letters are both rule file names or neither is.
pub proof fn lemma_rule_file_name_ignores_ascii_case(a: Seq<char>, b: Seq<char>)
    requires
        bytes_eq_ignore_ascii_case(encode_utf8(a), encode_utf8(b)),
    ensures
        is_project_rule_file_name(a) == is_project_rule_file_name(b),
{
    let ea = encode_utf8(a);
    let eb = encode_utf8(b);
    assert forall|target: Seq<u8>| bytes_eq_ignore_ascii_case(ea, target) <==> bytes_eq_ignore_ascii_case(
        eb,
        target,
    ) by {
        if bytes_eq_ignore_ascii_case(ea, target) {
            assert forall|i: int| 0 <= i < eb.len() implies #[trigger] ascii_lowercase(eb[i])
                == ascii_lowercase(target[i]) by {
                assert(ascii_lowercase(ea[i]) == ascii_lowercase(eb[i]));
                assert(ascii_lowercase(ea[i]) == ascii_lowercase(target[i]));
            }
        }
        if bytes_eq_ignore_ascii_case(eb, target) {
            assert forall|i: int| 0 <= i < ea.len() implies #[trigger] ascii_lowercase(ea[i])
                == ascii_lowercase(target[i]) by {
                assert(ascii_lowercase(ea[i]) == ascii_lowercase(eb[i]));
                assert(ascii_lowercase(eb[i]) == ascii_lowercase(target[i]));
            }
        }
    }
}

fn lowercase_ascii_byte(b: u8) -> (lower: u8)
    ensures
        lower == ascii_lowercase(b),
{
    if 65 <= b && b <= 90 {
        b + 32
    } else {
        b
    }
}

fn bytes_equal_ignoring_ascii_case(a: &[u8], b: &[u8]) -> (equal: bool)
    ensures
        equal == bytes_eq_ignore_ascii_case(a@, b@),
{
    if a.len() != b.len() {
        return false;
    }
    let len = a.len();
    for i in 0..len
        invariant
            len == a@.len(),
            len == b@.len(),
            forall|j: int| 0 <= j < i ==> #[trigger] ascii_lowercase(a@[j]) == ascii_lowercase(b@[j]),
    {
        if lowercase_ascii_byte(a[i]) != lowercase_ascii_byte(b[i]) {
            return false;
        }
    }
    true
}

/// Whether a file name names a project rule file.
pub fn matches_project_rule_file(file_name: Option<&str>) -> (matches: bool)
    ensures
        matches == (file_name matches Some(name) && is_project_rule_file_name(name@)),
{
    match file_name {
        Some(name) => {
            let bytes = name.as_bytes();
            bytes_equal_ignoring_ascii_case(bytes, "WARP.md".as_bytes())
                || bytes_equal_ignoring_ascii_case(bytes, "AGENTS.md".as_bytes())
        },
        None => false,
    }
}

/// The generation recorded for each repository in a list of entries.
pub open spec fn generations_of(entries: Seq<(RepositoryIdentifier, u64)>) -> Map<Location, u64> {
    Map::new(
        |key: Location| exists|i: int| 0 <= i < entries.len() && #[trigger] entries[i].0@ == key,
        |key: Location|
            entries[choose|i: int| 0 <= i < entries.len() && #[trigger] entries[i].0@ == key].1,
    )
}

/// No repository appears twice in the entries.
pub open spec fn keys_unique(entries: Seq<(RepositoryIdentifier, u64)>) -> bool {
    forall|i: int, j: int|
        0 <= i < entries.len() && 0 <= j < entries.len() && i != j ==> #[trigger] entries[i].0@
            != #[trigger] entries[j].0@
}

proof fn lemma_generations_at(entries: Seq<(RepositoryIdentifier, u64)>, i: int)
    requires
        keys_unique(entries),
        0 <= i < entries.len(),
    ensures
        generations_of(entries).dom().contains(entries[i].0@),
        generations_of(entries)[entries[i].0@] == entries[i].1,
{
    let key = entries[i].0@;
    assert(entries[i].0@ == key);
    let j = choose|j: int| 0 <= j < entries.len() && #[trigger] entries[j].0@ == key;
    assert(i == j);
}

proof fn lemma_generations_update(
    entries: Seq<(RepositoryIdentifier, u64)>,
    i: int,
    entry: (RepositoryIdentifier, u64),
)
    requires
        keys_unique(entries),
        0 <= i < entries.len(),
        entry.0@ == entries[i].0@,
    ensures
        keys_unique(entries.update(i, entry)),
        generations_of(entries.update(i, entry)) == generations_of(entries).insert(entry.0@, entry.1),
{
    let updated = entries.update(i, entry);
    assert forall|a: int, b: int|
        0 <= a < updated.len() && 0 <= b < updated.len() && a != b implies #[trigger] updated[a].0@
        != #[trigger] updated[b].0@ by {
        assert(updated[a].0@ == entries[a].0@);
        assert(updated[b].0@ == entries[b].0@);
    }
    let after = generations_of(updated);
    let expected = generations_of(entries).insert(entry.0@, entry.1);
    assert forall|key: Location| after.dom().contains(key) <==> expected.dom().contains(key) by {
        if after.dom().contains(key) {
            let j = choose|j: int| 0 <= j < updated.len() && #[trigger] updated[j].0@ == key;
            assert(entries[j].0@ == key);
        }
        if expected.dom().contains(key) && key != entry.0@ {
            let j = choose|j: int| 0 <= j < entries.len() && #[trigger] entries[j].0@ == key;
            assert(updated[j].0@ == key);
        }
        if key == entry.0@ {
            assert(updated[i].0@ == key);
        }
    }
    assert forall|key: Location| after.dom().contains(key) implies after[key] == expected[key] by {
        let j = choose|j: int| 0 <= j < updated.len() && #[trigger] updated[j].0@ == key;
        lemma_generations_at(updated, j);
        if j != i {
            lemma_generations_at(entries, j);
        }
    }
    assert(after =~= expected);
}

proof fn lemma_generations_push(entries: Seq<(RepositoryIdentifier, u64)>, entry: (RepositoryIdentifier, u64))
    requires
        keys_unique(entries),
        !generations_of(entries).dom().contains(entry.0@),
    ensures
        keys_unique(entries.push(entry)),
        generations_of(entries.push(entry)) == generations_of(entries).insert(entry.0@, entry.1),
{
    let pushed = entries.push(entry);
    let n = entries.len() as int;
    assert forall|a: int, b: int|
        0 <= a < pushed.len() && 0 <= b < pushed.len() && a != b implies #[trigger] pushed[a].0@
        != #[trigger] pushed[b].0@ by {
        if a == n {
            assert(entries[b].0@ == pushed[b].0@);
        } else if b == n {
            assert(entries[a].0@ == pushed[a].0@);
        } else {
            assert(entries[a].0@ == pushed[a].0@);
            assert(entries[b].0@ == pushed[b].0@);
        }
    }
    let after = generations_of(pushed);
    let expected = generations_of(entries).insert(entry.0@, entry.1);
    assert forall|key: Location| after.dom().contains(key) <==> expected.dom().contains(key) by {
        if after.dom().contains(key) && key != entry.0@ {
            let j = choose|j: int| 0 <= j < pushed.len() && #[trigger] pushed[j].0@ == key;
            assert(entries[j].0@ == key);
        }
        if expected.dom().contains(key) && key != entry.0@ {
            let j = choose|j: int| 0 <= j < entries.len() && #[trigger] entries[j].0@ == key;
            assert(pushed[j].0@ == key);
        }
        if key == entry.0@ {
            assert(pushed[n].0@ == key);
        }
    }
    assert forall|key: Location| after.dom().contains(key) implies after[key] == expected[key] by {
        let j = choose|j: int| 0 <= j < pushed.len() && #[trigger] pushed[j].0@ == key;
        lemma_generations_at(pushed, j);
        if j != n {
            lemma_generations_at(entries, j);
        }
    }
    assert(after =~= expected);
}

proof fn lemma_generations_remove(entries: Seq<(RepositoryIdentifier, u64)>, i: int)
    requires
        keys_unique(entries),
        0 <= i < entries.len(),
    ensures
        keys_unique(entries.remove(i)),
        generations_of(entries.remove(i)) == generations_of(entries).remove(entries[i].0@),
{
    let removed = entries.remove(i);
    let key_i = entries[i].0@;
    assert forall|a: int| 0 <= a < removed.len() implies #[trigger] removed[a] == entries[if a < i {
        a
    } else {
        a + 1
    }] by {}
    assert forall|a: int, b: int|
        0 <= a < removed.len() && 0 <= b < removed.len() && a != b implies #[trigger] removed[a].0@
        != #[trigger] removed[b].0@ by {
        let ea = if a < i { a } else { a + 1 };
        let eb = if b < i { b } else { b + 1 };
        assert(removed[a] == entries[ea]);
        assert(removed[b] == entries[eb]);
    }
    let after = generations_of(removed);
    let expected = generations_of(entries).remove(key_i);
    assert forall|key: Location| after.dom().contains(key) <==> expected.dom().contains(key) by {
        if after.dom().contains(key) {
            let j = choose|j: int| 0 <= j < removed.len() && #[trigger] removed[j].0@ == key;
            let ej = if j < i { j } else { j + 1 };
            assert(removed[j] == entries[ej]);
            assert(entries[ej].0@ == key);
        }
        if expected.dom().contains(key) {
            let j = choose|j: int| 0 <= j < entries.len() && #[trigger] entries[j].0@ == key;
            assert(j != i);
            let rj = if j < i { j } else { j - 1 };
            assert(removed[rj] == entries[j]);
            assert(removed[rj].0@ == key);
        }
    }
    assert forall|key: Location| after.dom().contains(key) implies after[key] == expected[key] by {
        let j = choose|j: int| 0 <= j < removed.len() && #[trigger] removed[j].0@ == key;
        let ej = if j < i { j } else { j + 1 };
        assert(removed[j] == entries[ej]);
        lemma_generations_at(removed, j);
        lemma_generations_at(entries, ej);
    }
    assert(after =~= expected);
}

/// The refresh bookkeeping of the project rules of all known repositories.
pub struct RemoteProjectRulesModel {
    refresh_generations: Vec<(RepositoryIdentifier, u64)>,
    next_refresh_generation: u64,
}

impl RemoteProjectRulesModel {
    /// The latest generation issued for each repository that has one.
    pub closed spec fn generations(&self) -> Map<Location, u64> {
        generations_of(self.refresh_generations@)
    }

    /// The last generation issued to any repository (0 before the first).
    pub closed spec fn next_generation(&self) -> u64 {
        self.next_refresh_generation
    }

    /// No repository is recorded twice.
    pub closed spec fn entries_unique(&self) -> bool {
        keys_unique(self.refresh_generations@)
    }

    /// Each repository is recorded once, every recorded generation lies
    /// between 1 and the last one issued, and no two repositories share one.
    pub open spec fn wf(&self) -> bool {
        &&& self.entries_unique()
        &&& forall|key: Location| #[trigger] self.generations().dom().contains(key)
            ==> 1 <= self.generations()[key] <= self.next_generation()
        &&& forall|a: Location, b: Location|
            #[trigger] self.generations().dom().contains(a) && #[trigger] self.generations().dom().contains(b)
                && a != b ==> self.generations()[a] != self.generations()[b]
    }

    /// `generation` is the latest one issued for `repository`, so a refresh
    /// result stamped with it may still be applied.
    pub open spec fn is_current(&self, repository: Location, generation: u64) -> bool {
        self.generations().dom().contains(repository) && self.generations()[repository] == generation
    }

    /// `after` is `before` once generation `issued` has been issued for
    /// `repository`: the next number in line, now the repository's latest.
    pub open spec fn advances(before: Self, after: Self, repository: Location, issued: u64) -> bool {
        &&& issued == before.next_generation() + 1
        &&& after.next_generation() == issued
        &&& after.generations() == before.generations().insert(repository, issued)
    }

    /// `after` is `before` with `repository` forgotten.
    pub open spec fn forgets(before: Self, after: Self, repository: Location) -> bool {
        &&& after.next_generation() == before.next_generation()
        &&& after.generations() == before.generations().remove(repository)
    }

    /// A model that knows no repository and has issued no generation.
    pub fn new() -> (model: Self)
        ensures
            model.wf(),
            model.generations() == Map::<Location, u64>::empty(),
            model.next_generation() == 0,
    {
        let model = RemoteProjectRulesModel { refresh_generations: Vec::new(), next_refresh_generation: 0 };
        assert(model.generations() =~= Map::<Location, u64>::empty());
        model
    }

    fn find_entry(&self, repo_id: &RepositoryIdentifier) -> (found: Option<usize>)
        requires
            self.wf(),
        ensures
            match found {
                Some(i) => i < self.refresh_generations@.len() && self.refresh_generations@[i as int].0@
                    == repo_id@,
                None => !self.generations().dom().contains(repo_id@),
            },
    {
        let count = self.refresh_generations.len();
        for i in 0..count
            invariant
                count == self.refresh_generations@.len(),
                forall|j: int| 0 <= j < i ==> #[trigger] self.refresh_generations@[j].0@ != repo_id@,
        {
            if self.refresh_generations[i].0.same_as(repo_id) {
                return Some(i);
            }
        }
        None
    }

    /// Issues the next generation and records it as the latest for `repo_id`.
    pub fn advance_refresh_generation(&mut self, repo_id: &RepositoryIdentifier) -> (issued: u64)
        requires
            old(self).wf(),
            old(self).next_generation() < u64::MAX,
        ensures
            final(self).wf(),
            Self::step(*old(self), *final(self)),
            Self::advances(*old(self), *final(self), repo_id@, issued),
    {
        let ghost before = *self;
        let found = self.find_entry(repo_id);
        self.next_refresh_generation += 1;
        let issued = self.next_refresh_generation;
        let entry = (repo_id.duplicate(), issued);
        match found {
            Some(i) => {
                proof {
                    lemma_generations_update(self.refresh_generations@, i as int, entry);
                }
                self.refresh_generations.set(i, entry);
            },
            None => {
                proof {
                    lemma_generations_push(self.refresh_generations@, entry);
                }
                self.refresh_generations.push(entry);
            },
        }
        proof {
            assert forall|key: Location| #[trigger] self.generations().dom().contains(key)
                implies self.generations()[key] <= self.next_generation() by {
                if key != repo_id@ {
                    assert(before.generations().dom().contains(key));
                }
            }
            assert(Self::advances(before, *self, repo_id@, issued));
        }
        issued
    }

    /// Forgets `repo_id`: no generation is current for it any more.
    fn forget_repository(&mut self, repo_id: &RepositoryIdentifier)
        requires
            old(self).wf(),
        ensures
            final(self).wf(),
            Self::forgets(*old(self), *final(self), repo_id@),
    {
        let ghost before = *self;
        match self.find_entry(repo_id) {
            Some(i) => {
                proof {
                    lemma_generations_remove(self.refresh_generations@, i as int);
                }
                self.refresh_generations.remove(i);
            },
            None => {
                assert(self.generations() =~= before.generations().remove(repo_id@));
            },
        }
        proof {
            assert forall|key: Location| #[trigger] self.generations().dom().contains(key)
                implies self.generations()[key] <= self.next_generation() by {
                assert(before.generations().dom().contains(key));
            }
        }
    }

    /// `after` holds the same bookkeeping as `before`.
    pub open spec fn unchanged(before: Self, after: Self) -> bool {
        &&& after.next_generation() == before.next_generation()
        &&& after.generations() == before.generations()
    }

    /// One step of the bookkeeping: nothing changes, a repository is
    /// forgotten, or a generation is issued for a repository.
    pub open spec fn step(before: Self, after: Self) -> bool {
        ||| Self::unchanged(before, after)
        ||| exists|repository: Location| Self::forgets(before, after, repository)
        ||| exists|repository: Location, issued: u64| Self::advances(before, after, repository, issued)
    }

    /// Each model in `run` arises from the one before it by one step.
    pub open spec fn is_run(run: Seq<Self>) -> bool {
        forall|i: int, j: int| 0 <= i && j == i + 1 && j < run.len() ==> Self::step(#[trigger] run[i], #[trigger] run[j])
    }

    /// The replacement of the rules under `root_path` by `rules`, if the refresh
    /// of `repo_id` stamped `refresh_generation` is still the latest one;
    /// `None` drops a superseded result.
    pub fn replace_rules_if_current(
        &self,
        repo_id: &RepositoryIdentifier,
        refresh_generation: u64,
        root_path: LocalOrRemotePath,
        rules: Vec<ProjectRule>,
    ) -> (replacement: Option<RulesReplacement>)
        requires
            self.wf(),
        ensures
            replacement is Some <==> self.is_current(repo_id@, refresh_generation),
            replacement matches Some(r) ==> r.root_path == root_path && r.rules == rules,
    {
        if !self.is_refresh_current(repo_id, refresh_generation) {
            return None;
        }
        Some(RulesReplacement { root_path, rules })
    }

    /// Starts a refresh of `repo_id`. For a local repository the metadata
    /// index decides: a complete index lists the rule files, a degraded one, or
    /// a failed indexing run, falls back to the file system, and a repository
    /// still being indexed is skipped. A remote repository always lists its
    /// rule files. Every refresh that does not skip issues a new generation.
    pub fn refresh_repository(
        &mut self,
        repo_id: &RepositoryIdentifier,
        coverage: Option<RepositoryCoverage>,
        indexing_failed: bool,
    ) -> (action: RefreshAction)
        requires
            old(self).wf(),
            (repo_id is Remote || coverage is Some || indexing_failed) ==> old(self).next_generation() < u64::MAX,
        ensures
            final(self).wf(),
            Self::step(*old(self), *final(self)),
            match repo_id {
                RepositoryIdentifier::Local(path) => match coverage {
                    Some(RepositoryCoverage::Complete) => action matches RefreshAction::ListRuleFiles {
                        generation,
                    } && Self::advances(*old(self), *final(self), repo_id@, generation),
                    Some(RepositoryCoverage::Degraded) => action matches RefreshAction::UseFilesystemFallback {
                        root,
                    } && root@ == path@ && Self::advances(
                        *old(self),
                        *final(self),
                        repo_id@,
                        (old(self).next_generation() + 1) as u64,
                    ),
                    None => if indexing_failed {
                        action matches RefreshAction::UseFilesystemFallback { root } && root@ == path@
                            && Self::advances(
                            *old(self),
                            *final(self),
                            repo_id@,
                            (old(self).next_generation() + 1) as u64,
                        )
                    } else {
                        action is Skip && Self::unchanged(*old(self), *final(self))
                    },
                },
                RepositoryIdentifier::Remote(_) => action matches RefreshAction::ListRuleFiles {
                    generation,
                } && Self::advances(*old(self), *final(self), repo_id@, generation),
            },
    {
        if let RepositoryIdentifier::Local(_) = repo_id {
            match coverage {
                Some(RepositoryCoverage::Complete) => {},
                Some(RepositoryCoverage::Degraded) => {
                    return self.refresh_local_repository_from_filesystem(repo_id);
                },
                None => {
                    if indexing_failed {
                        return self.refresh_local_repository_from_filesystem(repo_id);
                    }
                    return RefreshAction::Skip;
                },
            }
        }
        let generation = self.advance_refresh_generation(repo_id);
        RefreshAction::ListRuleFiles { generation }
    }

    /// Issues a new generation for `repo_id` and, for a local repository,
    /// falls back to indexing its rules from the file system.
    pub fn refresh_local_repository_from_filesystem(&mut self, repo_id: &RepositoryIdentifier) -> (action:
        RefreshAction)
        requires
            old(self).wf(),
            old(self).next_generation() < u64::MAX,
        ensures
            final(self).wf(),
            Self::step(*old(self), *final(self)),
            Self::advances(*old(self), *final(self), repo_id@, (old(self).next_generation() + 1) as u64),
            match repo_id {
                RepositoryIdentifier::Local(path) => action matches RefreshAction::UseFilesystemFallback {
                    root,
                } && root@ == path@,
                RepositoryIdentifier::Remote(_) => action is Skip,
            },
    {
        self.advance_refresh_generation(repo_id);
        match repo_id {
            RepositoryIdentifier::Local(path) => RefreshAction::UseFilesystemFallback { root: path.clone() },
            RepositoryIdentifier::Remote(_) => RefreshAction::Skip,
        }
    }

    /// Continues the refresh of `repo_id` stamped `refresh_generation` once its
    /// rule files are listed: with none, the rules are cleared (if the refresh
    /// is still current); otherwise the files are read locally or requested
    /// from the repository's host.
    pub fn plan_rule_hydration(
        &self,
        repo_id: &RepositoryIdentifier,
        refresh_generation: u64,
        rule_paths: Vec<LocalOrRemotePath>,
    ) -> (plan: HydrationPlan)
        requires
            self.wf(),
        ensures
            rule_paths@.len() == 0 ==> if self.is_current(repo_id@, refresh_generation) {
                plan matches HydrationPlan::Replace(r) && r.root_path@ == repo_id@ && r.rules@.len() == 0
            } else {
                plan is Discard
            },
            rule_paths@.len() != 0 ==> match repo_id {
                RepositoryIdentifier::Local(_) => plan matches HydrationPlan::ReadLocalFiles {
                    root_path,
                    rule_paths: paths,
                } && root_path@ == repo_id@ && paths == rule_paths,
                RepositoryIdentifier::Remote(remote_root) => plan matches HydrationPlan::RequestRemoteFiles {
                    host_id,
                    root_path,
                    request_paths,
                    rule_paths: paths,
                } && host_id@ == remote_root.host_id@ && root_path@ == repo_id@ && texts(request_paths@)
                    == remote_request_paths(path_locations(rule_paths@)) && paths == rule_paths,
            },
    {
        let root_path = repo_id.to_local_or_remote_path();
        if rule_paths.len() == 0 {
            return match self.replace_rules_if_current(repo_id, refresh_generation, root_path, Vec::new()) {
                Some(replacement) => HydrationPlan::Replace(replacement),
                None => HydrationPlan::Discard,
            };
        }
        match repo_id {
            RepositoryIdentifier::Local(_) => HydrationPlan::ReadLocalFiles { root_path, rule_paths },
            RepositoryIdentifier::Remote(remote_root) => {
                let request_paths = remote_rule_request_paths(&rule_paths);
                HydrationPlan::RequestRemoteFiles {
                    host_id: remote_root.host_id.clone(),
                    root_path,
                    request_paths,
                    rule_paths,
                }
            },
        }
    }

    /// Answers a metadata event: updated, changed or failed repositories are
    /// refreshed; of a changed file tree only the remote repositories are; a
    /// removed repository is forgotten and its rules cleared.
    pub fn handle_repo_metadata_event(&mut self, event: &RepoMetadataEvent) -> (action: MetadataEventAction)
        requires
            old(self).wf(),
        ensures
            final(self).wf(),
            Self::step(*old(self), *final(self)),
            match event {
                RepoMetadataEvent::RepositoryUpdated { id } | RepoMetadataEvent::FileTreeEntryUpdated {
                    id,
                } | RepoMetadataEvent::UpdatingRepositoryFailed { id } => action matches MetadataEventAction::Refresh(
                    ids,
                ) && repository_locations(ids@) == seq![id@] && Self::unchanged(*old(self), *final(self)),
                RepoMetadataEvent::FileTreeUpdated { ids: updated } => action matches MetadataEventAction::Refresh(
                    ids,
                ) && repository_locations(ids@) == remote_only(repository_locations(updated@))
                    && Self::unchanged(*old(self), *final(self)),
                RepoMetadataEvent::RepositoryRemoved { id } => action matches MetadataEventAction::ReplaceRules(r)
                    && r.root_path@ == id@ && r.rules@.len() == 0 && Self::forgets(
                    *old(self),
                    *final(self),
                    id@,
                ),
                RepoMetadataEvent::IncrementalUpdateReady => action is Nothing && Self::unchanged(
                    *old(self),
                    *final(self),
                ),
            },
    {
        match event {
            RepoMetadataEvent::RepositoryUpdated { id }
            | RepoMetadataEvent::FileTreeEntryUpdated { id }
            | RepoMetadataEvent::UpdatingRepositoryFailed { id } => {
                let mut ids: Vec<RepositoryIdentifier> = Vec::new();
                ids.push(id.duplicate());
                assert(repository_locations(ids@) =~= seq![id@]);
                MetadataEventAction::Refresh(ids)
            },
            RepoMetadataEvent::FileTreeUpdated { ids: updated } => {
                MetadataEventAction::Refresh(remote_repositories(updated))
            },
            RepoMetadataEvent::RepositoryRemoved { id } => {
                self.forget_repository(id);
                MetadataEventAction::ReplaceRules(
                    RulesReplacement { root_path: id.to_local_or_remote_path(), rules: Vec::new() },
                )
            },
            RepoMetadataEvent::IncrementalUpdateReady => MetadataEventAction::Nothing,
        }
    }

    /// The last generation issued (0 before the first).
    pub fn next_refresh_generation(&self) -> (generation: u64)
        ensures
            generation == self.next_generation(),
    {
        self.next_refresh_generation
    }

    /// Whether `refresh_generation` is still the latest generation of `repo_id`.
    pub fn is_refresh_current(&self, repo_id: &RepositoryIdentifier, refresh_generation: u64) -> (current: bool)
        requires
            self.wf(),
        ensures
            current == self.is_current(repo_id@, refresh_generation),
    {
        match self.find_entry(repo_id) {
            Some(i) => {
                proof {
                    lemma_generations_at(self.refresh_generations@, i as int);
                }
                self.refresh_generations[i].1 == refresh_generation
            },
            None => false,
        }
    }
}

/// The texts read for a list of rule files, as the contracts see them.
pub open spec fn read_texts(contents: Seq<Option<String>>) -> Seq<Option<Seq<char>>> {
    contents.map_values(|c: Option<String>| c.deep_view())
}

/// The rules that reading local rule files yields: for each rule file, in
/// order, a rule where the file is local and its text was read; remote files
/// and files that could not be read are skipped.
pub open spec fn local_rules(paths: Seq<Location>, texts: Seq<Option<Seq<char>>>) -> Seq<(Location, Seq<char>)> {
    Seq::new(paths.len(), |i: int| (paths[i], texts[i])).filter_map(
        |entry: (Location, Option<Seq<char>>)|
            match entry.0 {
                Location::Local(_) => match entry.1 {
                    Some(text) => Some((entry.0, text)),
                    None => None,
                },
                Location::Remote { .. } => None,
            },
    )
}

/// Reading one more rule file adds a rule for it, after the earlier ones,
/// exactly when it is local and its text was read.
pub proof fn lemma_local_rules_push(
    paths: Seq<Location>,
    texts: Seq<Option<Seq<char>>>,
    p: Location,
    text: Option<Seq<char>>,
)
    requires
        paths.len() == texts.len(),
    ensures
        p is Local && text is Some ==> local_rules(paths.push(p), texts.push(text)) == local_rules(
            paths,
            texts,
        ).push((p, text.unwrap())),
        p is Remote || text is None ==> local_rules(paths.push(p), texts.push(text)) == local_rules(paths, texts),
{
    let longer = Seq::new(paths.push(p).len(), |i: int| (paths.push(p)[i], texts.push(text)[i]));
    let shorter = Seq::new(paths.len(), |i: int| (paths[i], texts[i]));
    assert(longer.drop_last() =~= shorter);
    assert(longer.last() == (p, text));
    let prev = local_rules(paths, texts);
    if p is Local {
        if let Some(t) = text {
            assert(prev + seq![(p, t)] =~= prev.push((p, t)));
        }
    }
}

/// No rule file read, no rule.
pub proof fn lemma_local_rules_empty()
    ensures
        local_rules(Seq::<Location>::empty(), Seq::<Option<Seq<char>>>::empty()) == Seq::<
            (Location, Seq<char>),
        >::empty(),
{
}

/// The rules that reading local rule files yields: `contents[i]` is the text
/// read for `rule_paths[i]` (`None` where it was not read or could not be).
pub fn select_local_project_rules(
    rule_paths: Vec<LocalOrRemotePath>,
    contents: Vec<Option<String>>,
) -> (rules: Vec<ProjectRule>)
    requires
        contents@.len() == rule_paths@.len(),
    ensures
        rule_views(rules@) == local_rules(path_locations(rule_paths@), read_texts(contents@)),
{
    let ghost paths = path_locations(rule_paths@);
    let ghost texts = read_texts(contents@);
    let ghost input = Seq::new(paths.len(), |i: int| (paths[i], texts[i]));
    let ghost f = |entry: (Location, Option<Seq<char>>)|
        match entry.0 {
            Location::Local(_) => match entry.1 {
                Some(text) => Some((entry.0, text)),
                None => None,
            },
            Location::Remote { .. } => None,
        };
    let mut rules: Vec<ProjectRule> = Vec::new();
    let count = rule_paths.len();
    for i in 0..count
        invariant
            count == rule_paths@.len(),
            contents@.len() == count,
            paths == path_locations(rule_paths@),
            texts == read_texts(contents@),
            input == Seq::new(paths.len(), |i: int| (paths[i], texts[i])),
            f == (|entry: (Location, Option<Seq<char>>)|
                match entry.0 {
                    Location::Local(_) => match entry.1 {
                        Some(text) => Some((entry.0, text)),
                        None => None,
                    },
                    Location::Remote { .. } => None,
                }),
            rule_views(rules@) == input.take(i as int).filter_map(f),
    {
        proof {
            lemma_filter_map_take_step(input, f, i as int);
        }
        let ghost before = rules@;
        if let LocalOrRemotePath::Local(_) = &rule_paths[i] {
            if let Some(content) = &contents[i] {
                rules.push(ProjectRule { path: rule_paths[i].duplicate(), content: content.clone() });
            }
        }
        assert(input[i as int] == (paths[i as int], texts[i as int]));
        assert(rule_views(rules@) =~= match f(input[i as int]) {
            Some(b) => rule_views(before).push(b),
            None => rule_views(before),
        });
    }
    assert(input.take(count as int) =~= input);
    rules
}

/// The remote repositories among `ids`, in order.
pub fn remote_repositories(ids: &Vec<RepositoryIdentifier>) -> (remote: Vec<RepositoryIdentifier>)
    ensures
        repository_locations(remote@) == remote_only(repository_locations(ids@)),
{
    let ghost f = |id: Location| if id is Remote { Some(id) } else { None };
    let ghost input = repository_locations(ids@);
    let mut remote: Vec<RepositoryIdentifier> = Vec::new();
    let count = ids.len();
    for i in 0..count
        invariant
            count == ids@.len(),
            input == repository_locations(ids@),
            f == (|id: Location| if id is Remote { Some(id) } else { None }),
            repository_locations(remote@) == input.take(i as int).filter_map(f),
    {
        proof {
            lemma_filter_map_take_step(input, f, i as int);
        }
        let ghost before = remote@;
        if let RepositoryIdentifier::Remote(_) = &ids[i] {
            remote.push(ids[i].duplicate());
        }
        assert(repository_locations(remote@) =~= match f(input[i as int]) {
            Some(b) => repository_locations(before).push(b),
            None => repository_locations(before),
        });
    }
    assert(input.take(count as int) =~= input);
    remote
}

/// The paths of the project rule files in a repository's metadata tree:
/// files named like a rule file, on this machine for a local repository
/// (files without a local path are left out), on the repository's host for a
/// remote one; in tree order.
pub fn find_project_rule_files_in_tree(
    repo_id: &RepositoryIdentifier,
    contents: &Vec<RepoContent>,
) -> (rule_paths: Vec<LocalOrRemotePath>)
    ensures
        path_locations(rule_paths@) == rule_files(repo_id@, content_views(contents@)),
{
    let ghost f = |entry: RepoContentView| rule_file_location(repo_id@, entry);
    let ghost input = content_views(contents@);
    let mut rule_paths: Vec<LocalOrRemotePath> = Vec::new();
    let count = contents.len();
    for i in 0..count
        invariant
            count == contents@.len(),
            input == content_views(contents@),
            f == (|entry: RepoContentView| rule_file_location(repo_id@, entry)),
            path_locations(rule_paths@) == input.take(i as int).filter_map(f),
    {
        proof {
            lemma_filter_map_take_step(input, f, i as int);
        }
        let ghost before = rule_paths@;
        match &contents[i] {
            RepoContent::File(file) => {
                let name = match &file.file_name {
                    Some(name) => Some(name.as_str()),
                    None => None,
                };
                if matches_project_rule_file(name) {
                    match repo_id {
                        RepositoryIdentifier::Local(_) => {
                            if let Some(local) = &file.local_path {
                                rule_paths.push(LocalOrRemotePath::Local(local.clone()));
                            }
                        },
                        RepositoryIdentifier::Remote(remote_root) => {
                            rule_paths.push(
                                LocalOrRemotePath::Remote(
                                    RemotePath { host_id: remote_root.host_id.clone(), path: file.path.clone() },
                                ),
                            );
                        },
                    }
                }
            },
            RepoContent::Directory(_) => {},
        }
        assert(path_locations(rule_paths@) =~= match f(input[i as int]) {
            Some(b) => path_locations(before).push(b),
            None => path_locations(before),
        });
    }
    assert(input.take(count as int) =~= input);
    rule_paths
}

/// The paths to ask a remote host for: those of the remote rule files, in order.
pub fn remote_rule_request_paths(rule_paths: &Vec<LocalOrRemotePath>) -> (request_paths: Vec<String>)
    ensures
        texts(request_paths@) == remote_request_paths(path_locations(rule_paths@)),
{
    let ghost f = |p: Location|
        match p {
            Location::Remote { host: _, path } => Some(path),
            Location::Local(_) => None,
        };
    let ghost input = path_locations(rule_paths@);
    let mut request_paths: Vec<String> = Vec::new();
    let count = rule_paths.len();
    for i in 0..count
        invariant
            count == rule_paths@.len(),
            input == path_locations(rule_paths@),
            f == (|p: Location|
                match p {
                    Location::Remote { host: _, path } => Some(path),
                    Location::Local(_) => None,
                }),
            texts(request_paths@) == input.take(i as int).filter_map(f),
    {
        proof {
            lemma_filter_map_take_step(input, f, i as int);
        }
        let ghost before = request_paths@;
        if let LocalOrRemotePath::Remote(remote) = &rule_paths[i] {
            request_paths.push(remote.path.clone());
        }
        assert(texts(request_paths@) =~= match f(input[i as int]) {
            Some(b) => texts(before).push(b),
            None => texts(before),
        });
    }
    assert(input.take(count as int) =~= input);
    request_paths
}

/// The text a host's answer gives for `name` (the last answered file of that
/// name that came back as text).
pub fn answered_text_for(file_contexts: &Vec<FileContext>, name: &String) -> (text: Option<String>)
    ensures
        text.deep_view() == answered_text(context_views(file_contexts@), name@),
{
    let ghost all = context_views(file_contexts@);
    let mut j = file_contexts.len();
    assert(all.take(j as int) =~= all);
    while j > 0
        invariant
            j <= file_contexts@.len(),
            all == context_views(file_contexts@),
            answered_text(all, name@) == answered_text(all.take(j as int), name@),
        decreases j,
    {
        let ghost prefix = all.take(j as int);
        assert(prefix.drop_last() =~= all.take(j - 1));
        assert(prefix.last() == file_contexts@[j - 1]@);
        j -= 1;
        let context = &file_contexts[j];
        if context.file_name == *name {
            if let Some(text) = &context.text_content {
                return Some(text.clone());
            }
        }
    }
    assert(all.take(0) =~= Seq::<(Seq<char>, Option<Seq<char>>)>::empty());
    None
}

/// The rules a remote host's answer yields: one for each remote rule file
/// whose text came back, in the order of the rule files.
pub fn assemble_remote_rules(
    rule_paths: Vec<LocalOrRemotePath>,
    file_contexts: &Vec<FileContext>,
) -> (rules: Vec<ProjectRule>)
    ensures
        rule_views(rules@) == remote_rules(path_locations(rule_paths@), context_views(file_contexts@)),
{
    let ghost contexts = context_views(file_contexts@);
    let ghost f = |p: Location|
        match p {
            Location::Remote { host: _, path } => match answered_text(contexts, path) {
                Some(text) => Some((p, text)),
                None => None,
            },
            Location::Local(_) => None,
        };
    let ghost input = path_locations(rule_paths@);
    let mut rules: Vec<ProjectRule> = Vec::new();
    let count = rule_paths.len();
    for i in 0..count
        invariant
            count == rule_paths@.len(),
            input == path_locations(rule_paths@),
            contexts == context_views(file_contexts@),
            f == (|p: Location|
                match p {
                    Location::Remote { host: _, path } => match answered_text(contexts, path) {
                        Some(text) => Some((p, text)),
                        None => None,
                    },
                    Location::Local(_) => None,
                }),
            rule_views(rules@) == input.take(i as int).filter_map(f),
    {
        proof {
            lemma_filter_map_take_step(input, f, i as int);
        }
        let ghost before = rules@;
        if let LocalOrRemotePath::Remote(remote) = &rule_paths[i] {
            if let Some(content) = answered_text_for(file_contexts, &remote.path) {
                rules.push(ProjectRule { path: rule_paths[i].duplicate(), content });
            }
        }
        assert(rule_views(rules@) =~= match f(input[i as int]) {
            Some(b) => rule_views(before).push(b),
            None => rule_views(before),
        });
    }
    assert(input.take(count as int) =~= input);
    rules
}

/// The generation a refresh was issued is current right after: its result
/// would be applied.
pub proof fn lemma_issued_generation_is_current(
    before: RemoteProjectRulesModel,
    after: RemoteProjectRulesModel,
    repository: Location,
    issued: u64,
)
    requires
        RemoteProjectRulesModel::advances(before, after, repository, issued),
    ensures
        after.is_current(repository, issued),
{
}

/// Once a refresh of a repository is issued, no other generation is current
/// for it: results of earlier refreshes are dropped.
pub proof fn lemma_newer_refresh_supersedes(
    before: RemoteProjectRulesModel,
    after: RemoteProjectRulesModel,
    repository: Location,
    issued: u64,
    older: u64,
)
    requires
        RemoteProjectRulesModel::advances(before, after, repository, issued),
        older != issued,
    ensures
        !after.is_current(repository, older),
{
}

/// Refreshing one repository leaves which generations are current for every
/// other repository unchanged.
pub proof fn lemma_refresh_keeps_other_repositories(
    before: RemoteProjectRulesModel,
    after: RemoteProjectRulesModel,
    repository: Location,
    issued: u64,
    other: Location,
    generation: u64,
)
    requires
        RemoteProjectRulesModel::advances(before, after, repository, issued),
        other != repository,
    ensures
        after.is_current(other, generation) == before.is_current(other, generation),
{
}

/// A newly issued generation is newer than every generation recorded before,
/// so no generation is ever issued twice.
pub proof fn lemma_issued_generation_is_fresh(
    before: RemoteProjectRulesModel,
    after: RemoteProjectRulesModel,
    repository: Location,
    issued: u64,
    other: Location,
)
    requires
        before.wf(),
        RemoteProjectRulesModel::advances(before, after, repository, issued),
        before.generations().dom().contains(other),
    ensures
        before.generations()[other] < issued,
{
}

/// Of two refreshes of the same repository, only the later one's result is
/// applied, and the later one carries the larger generation.
pub proof fn lemma_later_of_two_refreshes_wins(
    first: RemoteProjectRulesModel,
    second: RemoteProjectRulesModel,
    third: RemoteProjectRulesModel,
    repository: Location,
    earlier: u64,
    later: u64,
)
    requires
        RemoteProjectRulesModel::advances(first, second, repository, earlier),
        RemoteProjectRulesModel::advances(second, third, repository, later),
    ensures
        earlier < later,
        !third.is_current(repository, earlier),
        third.is_current(repository, later),
{
}

/// A removed repository has no current generation: results of refreshes
/// still in flight for it are dropped.
pub proof fn lemma_removed_repository_has_no_current_generation(
    before: RemoteProjectRulesModel,
    after: RemoteProjectRulesModel,
    repository: Location,
    generation: u64,
)
    requires
        RemoteProjectRulesModel::forgets(before, after, repository),
    ensures
        !after.is_current(repository, generation),
{
}

/// Along a run the last issued generation never goes down.
pub proof fn lemma_run_never_lowers_next_generation(run: Seq<RemoteProjectRulesModel>, i: int, j: int)
    requires
        RemoteProjectRulesModel::is_run(run),
        0 <= i <= j < run.len(),
    ensures
        run[i].next_generation() <= run[j].next_generation(),
    decreases j - i,
{
    if i < j {
        lemma_run_never_lowers_next_generation(run, i, j - 1);
        assert(RemoteProjectRulesModel::step(run[j - 1], run[j]));
    }
}

/// A generation that is not current for a repository stays so along a run,
/// as long as every generation issued is newer than it.
proof fn lemma_stale_generation_stays_stale(
    run: Seq<RemoteProjectRulesModel>,
    repository: Location,
    stale: u64,
    i: int,
    j: int,
)
    requires
        RemoteProjectRulesModel::is_run(run),
        0 <= i <= j < run.len(),
        run[i].next_generation() >= stale,
        !run[i].is_current(repository, stale),
    ensures
        run[j].next_generation() >= stale,
        !run[j].is_current(repository, stale),
    decreases j - i,
{
    if i < j {
        lemma_stale_generation_stays_stale(run, repository, stale, i, j - 1);
        let before = run[j - 1];
        let after = run[j];
        assert(RemoteProjectRulesModel::step(before, after));
        if exists|r: Location, g: u64| RemoteProjectRulesModel::advances(before, after, r, g) {
            let (r, g) = choose|r: Location, g: u64| RemoteProjectRulesModel::advances(before, after, r, g);
            if r != repository {
                assert(after.generations()[repository] == before.generations()[repository]);
            }
        }
    }
}

/// No generation is handed out twice: whatever steps follow the issue of one
/// generation, the next one issued, for any repository, is larger.
pub proof fn lemma_generations_never_reissued(
    before: RemoteProjectRulesModel,
    run: Seq<RemoteProjectRulesModel>,
    after: RemoteProjectRulesModel,
    first_repository: Location,
    first: u64,
    second_repository: Location,
    second: u64,
)
    requires
        run.len() > 0,
        RemoteProjectRulesModel::advances(before, run[0], first_repository, first),
        RemoteProjectRulesModel::is_run(run),
        RemoteProjectRulesModel::advances(run.last(), after, second_repository, second),
    ensures
        first < second,
{
    lemma_run_never_lowers_next_generation(run, 0, run.len() - 1);
}

/// The result of a refresh is never applied once its repository has been
/// refreshed again, whatever other steps happen before or after that: from
/// the later refresh on, the earlier generation is not current.
pub proof fn lemma_superseded_refresh_stays_stale(
    before: RemoteProjectRulesModel,
    run: Seq<RemoteProjectRulesModel>,
    repository: Location,
    earlier: u64,
    k: int,
    later: u64,
    j: int,
)
    requires
        RemoteProjectRulesModel::advances(before, run[0], repository, earlier),
        RemoteProjectRulesModel::is_run(run),
        0 <= k < j < run.len(),
        RemoteProjectRulesModel::advances(run[k], run[k + 1], repository, later),
    ensures
        earlier < later,
        !run[j].is_current(repository, earlier),
{
    lemma_run_never_lowers_next_generation(run, 0, k);
    lemma_stale_generation_stays_stale(run, repository, earlier, k + 1, j);
}

/// Rules of a removed repository are never brought back by a refresh that was
/// in flight when it was removed: no generation issued up to the removal is
/// current at any later point, whatever steps follow (a later refresh of the
/// repository issues a newer generation).
pub proof fn lemma_removed_repository_stays_cleared(
    before: RemoteProjectRulesModel,
    run: Seq<RemoteProjectRulesModel>,
    repository: Location,
    generation: u64,
    j: int,
)
    requires
        RemoteProjectRulesModel::forgets(before, run[0], repository),
        RemoteProjectRulesModel::is_run(run),
        0 <= j < run.len(),
        generation <= before.next_generation(),
    ensures
        !run[j].is_current(repository, generation),
{
    lemma_stale_generation_stays_stale(run, repository, generation, 0, j);
}

/// In a well-formed model a generation is current for at most one
/// repository.
pub proof fn lemma_generation_current_for_one_repository(
    model: RemoteProjectRulesModel,
    a: Location,
    b: Location,
    generation: u64,
)
    requires
        model.wf(),
        model.is_current(a, generation),
        model.is_current(b, generation),
    ensures
        a == b,
{
}

/// A fresh model, as a test starts from.
pub fn local_rules_model() -> (model: RemoteProjectRulesModel)
    ensures
        model.wf(),
        model.generations() == Map::<Location, u64>::empty(),
        model.next_generation() == 0,
{
    RemoteProjectRulesModel::new()
}

} // verus!
