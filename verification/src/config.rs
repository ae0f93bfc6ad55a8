//! Actors, sources, and the policies a workspace is configured with.

use crate::error::{Error, ErrorView};
use crate::words::{chars_of, joined, opt_text, owned, same};
use vstd::prelude::*;

verus! {

/// The actor a workspace attributes its snapshots and journal entries to.
#[derive(Debug, Clone, PartialEq, Eq)]
pub struct Actor {
    pub name: String,
    pub kind: ActorKind,
}

/// What an [`Actor`] says.
pub struct ActorView {
    pub name: Seq<char>,
    pub kind: ActorKind,
}

impl View for Actor {
    type V = ActorView;

    open spec fn view(&self) -> ActorView {
        ActorView { name: self.name@, kind: self.kind }
    }
}

impl Actor {
    /// An owned copy of the actor.
    pub fn copy(&self) -> (r: Self)
        ensures
            r@ == self@,
    {
        Actor { name: owned(self.name.as_str()), kind: self.kind }
    }
}

/// What kind of actor acted: a person, an AI agent, or an automation.
#[derive(Debug, Clone, Copy, PartialEq, Eq, Structural)]
pub enum ActorKind {
    Human,
    Agent,
    Automation,
}

/// An actor kind's canonical lowercase name.
pub open spec fn actor_kind_name(kind: ActorKind) -> Seq<char> {
    match kind {
        ActorKind::Human => "human"@,
        ActorKind::Agent => "agent"@,
        ActorKind::Automation => "automation"@,
    }
}

/// The actor kind `text` names, when it names one.
pub open spec fn actor_kind_named(text: Seq<char>) -> Option<ActorKind> {
    if text == "human"@ {
        Some(ActorKind::Human)
    } else if text == "agent"@ {
        Some(ActorKind::Agent)
    } else if text == "automation"@ {
        Some(ActorKind::Automation)
    } else {
        None
    }
}

impl ActorKind {
    /// The kind's canonical lowercase name, as stored and rendered.
    #[must_use]
    pub fn as_str(self) -> (r: &'static str)
        ensures
            r@ == actor_kind_name(self),
    {
        match self {
            ActorKind::Human => "human",
            ActorKind::Agent => "agent",
            ActorKind::Automation => "automation",
        }
    }

    /// The kind `text` names.
    pub fn from_text(text: &str) -> (r: Result<Self, Error>)
        ensures
            r is Ok <==> actor_kind_named(text@) is Some,
            r is Ok ==> actor_kind_named(text@) == Some(r->Ok_0),
            r is Err ==> (r->Err_0)@ == ErrorView::Config("unknown actor kind: "@ + text@),
    {
        if same(text, "human") {
            Ok(ActorKind::Human)
        } else if same(text, "agent") {
            Ok(ActorKind::Agent)
        } else if same(text, "automation") {
            Ok(ActorKind::Automation)
        } else {
            Err(Error::Config(joined("unknown actor kind: ", text)))
        }
    }
}

/// Every actor kind is read back from its name.
pub proof fn actor_kind_round_trips(kind: ActorKind)
    ensures
        actor_kind_named(actor_kind_name(kind)) == Some(kind),
{
    reveal_strlit("human");
    reveal_strlit("agent");
    reveal_strlit("automation");
    assert("human"@[0] == 'h' && "agent"@[1] == 'g' && "automation"@[1] == 'u');
    assert("human"@[1] == 'u' && "agent"@[0] == 'a' && "automation"@[0] == 'a');
}

// ---------------------------------------------------------------------
// Where the actor is configured.

/// `rel` under the directory `base`: separated by one `/`, which an empty
/// base and a base that ends in `/` do not need.
pub open spec fn path_under(base: Seq<char>, rel: Seq<char>) -> Seq<char> {
    if base.len() == 0 || base.last() == '/' {
        base + rel
    } else {
        base + "/"@ + rel
    }
}

/// The relative path `rel` under the directory `base`.
pub fn join_path(base: &str, rel: &str) -> (r: String)
    ensures
        r@ == path_under(base@, rel@),
{
    let chars = chars_of(base);
    if chars.len() == 0 || chars[chars.len() - 1] == '/' {
        joined(base, rel)
    } else {
        let mut out = joined(base, "/");
        out.push_str(rel);
        out
    }
}

/// The config file the actor is read from: under `$ATELIER_CONFIG_HOME`,
/// else under `$XDG_CONFIG_HOME/atelier`, else under
/// `~/.config/atelier`; nowhere when none of the three is set.
pub open spec fn config_file(
    atelier_home: Option<Seq<char>>,
    xdg_home: Option<Seq<char>>,
    home: Option<Seq<char>>,
) -> Option<Seq<char>> {
    if atelier_home is Some {
        Some(path_under(atelier_home->0, "config.toml"@))
    } else if xdg_home is Some {
        Some(path_under(path_under(xdg_home->0, "atelier"@), "config.toml"@))
    } else if home is Some {
        Some(
            path_under(
                path_under(path_under(home->0, ".config"@), "atelier"@),
                "config.toml"@,
            ),
        )
    } else {
        None
    }
}

/// The config file the actor is read from, given the three variables that
/// can name its directory.
pub fn actor_config_path(
    atelier_home: &Option<String>,
    xdg_home: &Option<String>,
    home: &Option<String>,
) -> (r: Option<String>)
    ensures
        opt_text(r) == config_file(opt_text(*atelier_home), opt_text(*xdg_home), opt_text(*home)),
{
    match atelier_home {
        Some(dir) => Some(join_path(dir.as_str(), "config.toml")),
        None => match xdg_home {
            Some(dir) => Some(join_path(join_path(dir.as_str(), "atelier").as_str(), "config.toml")),
            None => match home {
                Some(dir) => Some(
                    join_path(
                        join_path(join_path(dir.as_str(), ".config").as_str(), "atelier").as_str(),
                        "config.toml",
                    ),
                ),
                None => None,
            },
        },
    }
}

/// The actor a config names: the one of its actor section, when the file
/// exists and has one.
pub fn configured_actor(section: Option<Actor>) -> (r: Result<Actor, Error>)
    ensures
        section is Some ==> r == Ok::<Actor, Error>(section->0),
        section is None ==> r is Err && (r->Err_0)@ == ErrorView::NoActorConfigured,
{
    match section {
        Some(actor) => Ok(actor),
        None => Err(Error::NoActorConfigured),
    }
}

// ---------------------------------------------------------------------
// Sources.

/// An external origin the workspace is attached to. The mount names the
/// subdirectory whose engine carries the source's history; `/` is a root
/// import: content folded into the root, no engine of its own.
#[derive(Debug, Clone, PartialEq, Eq)]
pub struct Source {
    pub kind: SourceKind,
    pub path: String,
    pub sync: SyncPolicy,
    pub mount: String,
    /// The git branch adoption found checked out; every landing on this
    /// source moves it, so plain `git push` carries the shared line.
    /// Absent for folder sources and detached-HEAD adoptions.
    pub branch: Option<String>,
}

/// What a [`Source`] says.
pub struct SourceView {
    pub kind: SourceKind,
    pub path: Seq<char>,
    pub sync: SyncPolicy,
    pub mount: Seq<char>,
    pub branch: Option<Seq<char>>,
}

impl View for Source {
    type V = SourceView;

    open spec fn view(&self) -> SourceView {
        SourceView {
            kind: self.kind,
            path: self.path@,
            sync: self.sync,
            mount: self.mount@,
            branch: opt_text(self.branch),
        }
    }
}

/// What each of the sources says, in order.
pub open spec fn source_views(sources: Seq<Source>) -> Seq<SourceView> {
    sources.map_values(|source: Source| source@)
}

/// The mount value of a root import.
pub const ROOT_MOUNT: &'static str = "/";

/// The kind of origin a source is.
#[derive(Debug, Clone, Copy, PartialEq, Eq, Structural)]
pub enum SourceKind {
    LocalFolder,
    LocalGit,
    /// A bucket prefix behind the remote adapter; the source path holds
    /// the URL.
    Remote,
}

/// A source kind as printed.
pub open spec fn source_kind_name(kind: SourceKind) -> Seq<char> {
    match kind {
        SourceKind::LocalFolder => "local-folder"@,
        SourceKind::LocalGit => "local-git"@,
        SourceKind::Remote => "remote"@,
    }
}

impl SourceKind {
    /// The kind as printed.
    #[must_use]
    pub fn to_text(self) -> (r: &'static str)
        ensures
            r@ == source_kind_name(self),
    {
        match self {
            SourceKind::LocalFolder => "local-folder",
            SourceKind::LocalGit => "local-git",
            SourceKind::Remote => "remote",
        }
    }
}

/// How content moves between a workspace and its source.
#[derive(Debug, Clone, Copy, PartialEq, Eq, Structural)]
pub enum SyncPolicy {
    TwoWay,
}

/// A sync policy as printed.
pub open spec fn sync_policy_name(policy: SyncPolicy) -> Seq<char> {
    match policy {
        SyncPolicy::TwoWay => "two-way"@,
    }
}

impl SyncPolicy {
    /// The policy as printed.
    #[must_use]
    pub fn to_text(self) -> (r: &'static str)
        ensures
            r@ == sync_policy_name(self),
    {
        match self {
            SyncPolicy::TwoWay => "two-way",
        }
    }
}

// ---------------------------------------------------------------------
// Workspace policies.

/// The description of one workspace.
#[derive(Debug, Clone, PartialEq, Eq)]
pub struct WorkspaceConfig {
    pub schema: u32,
    pub workspace: WorkspaceSection,
    pub landing: LandingPolicy,
    pub journal: JournalPolicy,
    pub sources: Vec<Source>,
}

/// The workspace's own section of its description.
#[derive(Debug, Clone, PartialEq, Eq)]
pub struct WorkspaceSection {
    pub name: String,
}

/// The landing policy: what a landing request needs before its change
/// lands. The default profile takes one approval, allows self-approval, and
/// dismisses approvals when the change gains a snapshot.
#[derive(Debug, Clone, Copy, PartialEq, Eq, Structural)]
pub struct LandingPolicy {
    pub approvals: u32,
    pub allow_self_approve: bool,
    pub dismiss_approvals_on_new_snapshots: bool,
}

impl Default for LandingPolicy {
    fn default() -> (r: Self)
        ensures
            r.approvals == 1,
            r.allow_self_approve,
            r.dismiss_approvals_on_new_snapshots,
    {
        LandingPolicy {
            approvals: 1,
            allow_self_approve: true,
            dismiss_approvals_on_new_snapshots: true,
        }
    }
}

/// The journal policy: how much of a session's instruction the journal
/// keeps.
#[derive(Debug, Clone, Copy, PartialEq, Eq, Structural)]
pub struct JournalPolicy {
    pub instruction_fidelity: InstructionFidelity,
}

impl Default for JournalPolicy {
    fn default() -> (r: Self)
        ensures
            r.instruction_fidelity == InstructionFidelity::Summary,
    {
        JournalPolicy { instruction_fidelity: InstructionFidelity::Summary }
    }
}

/// What the journal records of an instruction: the summary plus run
/// reference, or additionally the verbatim body (audit profiles).
#[derive(Debug, Clone, Copy, PartialEq, Eq, Structural)]
pub enum InstructionFidelity {
    Summary,
    Verbatim,
}

impl WorkspaceConfig {
    /// The description of a fresh workspace: the default policies and no
    /// source.
    pub fn new(name: String) -> (r: Self)
        ensures
            r.schema == 1,
            r.workspace.name == name,
            r.landing == (LandingPolicy {
                approvals: 1,
                allow_self_approve: true,
                dismiss_approvals_on_new_snapshots: true,
            }),
            r.journal.instruction_fidelity == InstructionFidelity::Summary,
            r.sources@.len() == 0,
    {
        WorkspaceConfig {
            schema: 1,
            workspace: WorkspaceSection { name },
            landing: LandingPolicy::default(),
            journal: JournalPolicy::default(),
            sources: Vec::new(),
        }
    }
}

// ---------------------------------------------------------------------
// The publishing identity.

/// Which program signs what the engine writes.
#[derive(Debug, Clone, Copy, PartialEq, Eq, Structural)]
pub enum SigningBackend {
    Gpg,
    Ssh,
}

/// The key everything the engine writes is signed with.
#[derive(Debug, Clone, PartialEq, Eq)]
pub struct Signing {
    pub backend: SigningBackend,
    pub key: String,
}

/// The identity work is published under, with its signing key when one is
/// configured.
#[derive(Debug, Clone, PartialEq, Eq)]
pub struct GitIdentity {
    pub name: String,
    pub email: String,
    pub signing: Option<Signing>,
}

/// The publishing identity a config states, refused when its email is
/// empty.
pub fn checked_git_identity(identity: Option<GitIdentity>) -> (r: Result<
    Option<GitIdentity>,
    Error,
>)
    ensures
        identity is Some && (identity->0).email@.len() == 0 ==> r is Err && (r->Err_0)@
            == ErrorView::Config("git.email must not be empty"@),
        !(identity is Some && (identity->0).email@.len() == 0) ==> r == Ok::<
            Option<GitIdentity>,
            Error,
        >(identity),
{
    match identity {
        Some(identity) => if identity.email.as_str().is_empty() {
            Err(Error::Config(owned("git.email must not be empty")))
        } else {
            Ok(Some(identity))
        },
        None => Ok(None),
    }
}

/// The address an actor without a publishing identity works under.
pub open spec fn synthetic_address(name: Seq<char>) -> Seq<char> {
    name + "@atelier.local"@
}

/// The author an actor's commits carry: the publishing identity for the
/// owning human; the synthetic actor address for agents and automations, so
/// their work stays attributed while the committer and the signature remain
/// the identity's.
pub fn author_identity(actor: &Actor, git: &Option<GitIdentity>) -> (r: (String, String))
    ensures
        git is Some && actor.kind == ActorKind::Human ==> r.0@ == (git->0).name@ && r.1@
            == (git->0).email@,
        !(git is Some && actor.kind == ActorKind::Human) ==> r.0@ == actor.name@ && r.1@
            == synthetic_address(actor.name@),
{
    match (git, actor.kind) {
        (Some(git), ActorKind::Human) => (owned(git.name.as_str()), owned(git.email.as_str())),
        _ => (owned(actor.name.as_str()), joined(actor.name.as_str(), "@atelier.local")),
    }
}

/// How the engine signs: with which program, by which behavior, with which
/// key.
#[derive(Debug, Clone, PartialEq, Eq)]
pub struct SigningSettings {
    pub backend: &'static str,
    pub behavior: &'static str,
    pub key: String,
}

/// The user an engine writes as, and how it signs.
#[derive(Debug, Clone, PartialEq, Eq)]
pub struct EngineSettings {
    pub name: String,
    pub email: String,
    pub signing: Option<SigningSettings>,
}

/// A signing program's name.
pub open spec fn signing_backend_name(backend: SigningBackend) -> Seq<char> {
    match backend {
        SigningBackend::Gpg => "gpg"@,
        SigningBackend::Ssh => "ssh"@,
    }
}

/// The settings an engine runs under. The user, author and committer of
/// every commit the engine writes, is the publishing identity when one is
/// configured, else a synthetic per-actor address. Configured signing signs
/// with behavior `force`: everything this engine writes publishes under the
/// identity's key, whoever authored it.
pub fn engine_settings(actor: &Actor, git: &Option<GitIdentity>) -> (r: EngineSettings)
    ensures
        git is Some ==> {
            &&& r.name@ == (git->0).name@
            &&& r.email@ == (git->0).email@
            &&& r.signing is Some <==> (git->0).signing is Some
            &&& r.signing is Some ==> {
                let signing = (git->0).signing->0;
                &&& (r.signing->0).backend@ == signing_backend_name(signing.backend)
                &&& (r.signing->0).behavior@ == "force"@
                &&& (r.signing->0).key@ == signing.key@
            }
        },
        git is None ==> {
            &&& r.name@ == actor.name@
            &&& r.email@ == synthetic_address(actor.name@)
            &&& r.signing is None
        },
{
    match git {
        Some(git) => EngineSettings {
            name: owned(git.name.as_str()),
            email: owned(git.email.as_str()),
            signing: match &git.signing {
                Some(signing) => Some(
                    SigningSettings {
                        backend: match signing.backend {
                            SigningBackend::Gpg => "gpg",
                            SigningBackend::Ssh => "ssh",
                        },
                        behavior: "force",
                        key: owned(signing.key.as_str()),
                    },
                ),
                None => None,
            },
        },
        None => EngineSettings {
            name: owned(actor.name.as_str()),
            email: joined(actor.name.as_str(), "@atelier.local"),
            signing: None,
        },
    }
}

/// A path under a directory is the directory, one slash, and the path; no
/// slash is added where the directory ends in one or is nothing.
pub proof fn paths_go_under(base: Seq<char>, rel: Seq<char>)
    ensures
        path_under(Seq::empty(), rel) == rel,
        path_under(base.push('/'), rel) == base.push('/') + rel,
        base.len() > 0 && base.last() != '/' ==> path_under(base, rel) == path_under(
            base.push('/'),
            rel,
        ),
{
    reveal_strlit("/");
    assert(Seq::<char>::empty() + rel =~= rel);
    assert(base + "/"@ + rel =~= base.push('/') + rel);
}

/// The configuration lies where the first of the three places that is known
/// says, whatever the later ones are, and is called `config.toml` there; it
/// has no place exactly when none is known.
pub proof fn the_first_known_place_counts(
    first: Seq<char>,
    second: Seq<char>,
    third: Seq<char>,
    b: Option<Seq<char>>,
    c: Option<Seq<char>>,
)
    ensures
        config_file(Some(first), b, c) == Some(path_under(first, "config.toml"@)),
        config_file(None, Some(second), c) == Some(
            path_under(path_under(second, "atelier"@), "config.toml"@),
        ),
        config_file(None, None, Some(third)) == config_file(
            None,
            Some(path_under(third, ".config"@)),
            None,
        ),
        config_file(None, b, c) is None <==> b is None && c is None,
{
}

/// An actor's kind reads as the kind it names, everywhere alike.
pub proof fn actor_kinds_read_alike()
    ensures
        actor_kind_named("human"@) == Some(ActorKind::Human),
        actor_kind_named("agent"@) == Some(ActorKind::Agent),
        actor_kind_named("automation"@) == Some(ActorKind::Automation),
{
    actor_kind_round_trips(ActorKind::Human);
    actor_kind_round_trips(ActorKind::Agent);
    actor_kind_round_trips(ActorKind::Automation);
}

/// An actor's made-up address tells the actor: two actors share none.
pub proof fn addresses_tell_actors(a: Seq<char>, b: Seq<char>)
    ensures
        synthetic_address(a) == synthetic_address(b) ==> a == b,
        synthetic_address(a).take(a.len() as int) == a,
        synthetic_address(a).skip(a.len() as int) == "@atelier.local"@,
{
    assert(synthetic_address(a).take(a.len() as int) =~= a);
    assert(synthetic_address(b).take(b.len() as int) =~= b);
    assert(synthetic_address(a).skip(a.len() as int) =~= "@atelier.local"@);
}

} // verus!
