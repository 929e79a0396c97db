//! What a bundle a project pulls in over Git is contained within, together
//! with what it is allowed to do.
//!
//! A grant counts only when the file declaring the include is one the
//! project owner controls: the root configuration file, or something it
//! reached without crossing a Git include. Inside a bundle the flags are
//! ignored, so a bundle can neither grant itself anything nor pass on what
//! it was granted: a grant is one level deep, never a subtree.
//!
//! Both walkers (the loader, and shell completion) take every answer from
//! here, so they cannot come to disagree about it.

use vstd::prelude::*;

use crate::text::{join_path, joined_path};
use crate::text_map::TextMap;

verus! {

/// The two configuration dialects.
#[derive(Clone, Copy, Debug, PartialEq, Eq, Structural)]
pub enum ConfigFormat {
    /// A native `ratect.toml` project.
    Native,
    /// A Batect-compatible `batect.yml` project.
    Compat,
}

/// What a `type: git` include entry asks for. `nested_git` is an `Option`
/// because absent and `false` differ: writing it in a `batect.yml` is
/// refused either way, and only an entry that wrote something can be.
#[derive(Clone, Copy, Debug, PartialEq, Eq, Structural)]
pub struct Grants {
    pub host_paths: bool,
    pub nested_git: Option<bool>,
}

/// The grants a file is actually loaded under: an entry asks, a file
/// carries, and the two differ whenever a bundle asked for something it is
/// not in a position to be given.
#[derive(Clone, Copy, Debug, PartialEq, Eq, Structural)]
pub struct Trust {
    /// The bundle's containers may resolve `volumes`/`build_directory`
    /// paths anywhere, rather than only within its clone or the project.
    pub host_paths: bool,
    /// The bundle's own `type: git` includes may be followed.
    pub nested_git: bool,
}

impl Trust {
    /// Granted nothing: what every bundle carries unless an
    /// owner-controlled file said otherwise.
    #[verifier::allow_in_spec]
    pub fn none() -> (nothing: Trust)
        returns
            (Trust { host_paths: false, nested_git: false }),
    {
        Trust { host_paths: false, nested_git: false }
    }
}

/// How a bundle is named back to whoever has to act on an error: exactly
/// the two things they wrote.
#[derive(Clone, Debug)]
pub struct BundleId {
    pub remote: String,
    pub git_ref: String,
}

/// Whether two bundle names spell the same remote and ref.
pub open spec fn same_id(a: BundleId, b: BundleId) -> bool {
    a.remote@ == b.remote@ && a.git_ref@ == b.git_ref@
}

impl BundleId {
    /// A copy of this name.
    pub fn duplicate(&self) -> (copy: BundleId)
        ensures
            same_id(copy, *self),
    {
        BundleId { remote: self.remote.clone(), git_ref: self.git_ref.clone() }
    }
}

/// A bundle as the trust rules see it: how it is named, and what it
/// carries.
#[derive(Clone, Debug)]
pub struct Bundle {
    pub id: BundleId,
    pub trust: Trust,
}

/// What a bundle reached by an entry asking for `asked` carries, declared
/// by a file whose own origin is `declaring` (`None` for an owned file).
pub open spec fn granted_trust(declaring: Option<&Bundle>, asked: Grants) -> Trust {
    Trust {
        host_paths: asked.host_paths && declaring is None,
        nested_git: asked.nested_git == Some(true) && declaring is None,
    }
}

impl Bundle {
    /// The bundle `id` as reached by an entry asking for `asked`, declared by
    /// a file whose own origin is `declaring` (`None` for an owned file: the
    /// root configuration, or anything it reached without crossing a Git
    /// include). This is the whole rule; both walkers call it.
    pub fn granted(declaring: Option<&Bundle>, id: BundleId, asked: Grants) -> (bundle: Bundle)
        ensures
            bundle.id == id,
            bundle.trust == granted_trust(declaring, asked),
    {
        let owner_declared = declaring.is_none();
        let nested = match asked.nested_git {
            Some(n) => n,
            None => false,
        };
        Bundle {
            id,
            trust: Trust { host_paths: asked.host_paths && owner_declared, nested_git: nested && owner_declared },
        }
    }
}

/// A grant is one level deep: whatever a bundle's own entry asks for, the
/// bundle it admits carries nothing, so no chain of bundles can pass a
/// permission on.
pub proof fn lemma_grant_is_one_level_deep(declaring: &Bundle, asked: Grants)
    ensures
        granted_trust(Some(declaring), asked) == Trust::none(),
{
}

/// An owned file confers exactly what its entry asks for, and an explicit
/// `false` confers nothing.
pub proof fn lemma_owned_file_confers_what_it_asks(asked: Grants)
    ensures
        granted_trust(None, asked).host_paths == asked.host_paths,
        granted_trust(None, asked).nested_git == (asked.nested_git == Some(true)),
{
}

/// The bundle whose permission a `type: git` include needs, or `None` when
/// nothing restricts it: an owned file declared it, or the project is
/// Batect-compatible and has no such gate.
pub open spec fn restricted_by(declaring: Option<&Bundle>, format: ConfigFormat) -> Option<&Bundle> {
    match format {
        ConfigFormat::Native => declaring,
        ConfigFormat::Compat => None,
    }
}

/// The single answer every native-only behaviour keys off: see
/// [`restricted_by`].
pub fn restricting<'a>(declaring: Option<&'a Bundle>, format: ConfigFormat) -> (restricted: Option<&'a Bundle>)
    ensures
        restricted == restricted_by(declaring, format),
{
    match format {
        ConfigFormat::Native => declaring,
        ConfigFormat::Compat => None,
    }
}

/// The bundle that refuses a Git include under `restricted`: one that
/// restricts it without having been granted nested Git includes.
pub open spec fn refused_by(restricted: Option<&Bundle>) -> Option<&Bundle> {
    match restricted {
        Some(b) => if b.trust.nested_git {
            None
        } else {
            Some(b)
        },
        None => None,
    }
}

/// The bundle that refuses this Git include, or `None` if it may proceed.
/// Completion takes its `bool` view from here.
pub fn refusing_nested_git<'a>(restricted: Option<&'a Bundle>) -> (refusing: Option<&'a Bundle>)
    ensures
        refusing == refused_by(restricted),
{
    match restricted {
        Some(b) => if b.trust.nested_git {
            None
        } else {
            Some(b)
        },
        None => None,
    }
}

/// One of the refusals the trust rules raise. Each names the field rather
/// than spelling the config syntax, and names something the reader wrote.
#[derive(Clone, Debug)]
pub enum TrustError {
    /// An include reached through a Git include resolves outside its
    /// repository: by its spelling, or `via_symlink`.
    IncludeEscapes { path: String, remote: String, git_ref: String, via_symlink: bool },
    /// A container path of a Git-included bundle resolves outside both its
    /// repository and the project directory.
    PathEscapes { path: String, remote: String, git_ref: String, project_dir: String, via_symlink: bool },
    /// Where a path really points could not be determined.
    Unresolvable { path: String, remote: String, git_ref: String, cause: String },
    /// An include's target could not be resolved on disk.
    Unreadable { path: String, cause: String },
    /// `allow_nested_git_includes` written in a Batect-compatible project,
    /// by the owner or by the bundle `declared_by`.
    NativeOnlyField { repo: String, declared_by: Option<BundleId> },
    /// A bundle not granted nested Git includes declares one.
    NestedGitRefused { remote: String, git_ref: String, repo: String },
    /// Cloning an include the owner named failed, with git's own account.
    CloneFailed { repo: String, git_ref: String, detail: String },
    /// Cloning an include a bundle named failed; git's account is withheld.
    BundleCloneFailed { repo: String, git_ref: String, remote: String, declaring_ref: String },
    /// Grants set on an include that reached an already-loaded file with
    /// less, so they could not take effect.
    GrantsLost { host_paths: bool, nested_git: bool, repo: String },
}

/// The fields whose grants were lost, each in quotes, joined with `and`.
pub open spec fn lost_fields(host_paths: bool, nested_git: bool) -> Seq<char> {
    if host_paths && nested_git {
        "allow_host_paths' and 'allow_nested_git_includes"@
    } else if host_paths {
        "allow_host_paths"@
    } else {
        "allow_nested_git_includes"@
    }
}

/// The text of a refusal.
pub open spec fn error_text(error: TrustError) -> Seq<char> {
    match error {
        TrustError::IncludeEscapes { path, remote, git_ref, via_symlink } => "Included file '"@ + path@
            + "' escapes the Git repository '"@ + remote@ + "' at '"@ + git_ref@ + "' it was included from"@ + (
        if via_symlink {
            " (via a symlink)"@
        } else {
            ""@
        }) + " — includes reached through a Git include must resolve within that repository."@,
        TrustError::PathEscapes { path, remote, git_ref, project_dir, via_symlink } => "Path '"@ + path@
            + "' escapes both the Git repository '"@ + remote@ + "' at '"@ + git_ref@
            + "' it was included from and the project directory '"@ + project_dir@ + "'"@ + (if via_symlink {
            " (via a symlink)"@
        } else {
            ""@
        })
            + " — a container reached through a Git include must resolve its 'volumes'/'build_directory' paths within one of the two. If you trust this bundle to reach that path, set 'allow_host_paths' to true on the include entry for '"@
            + remote@ + "' in your own configuration."@,
        TrustError::Unresolvable { path, remote, git_ref, cause } => "Cannot determine where '"@ + path@
            + "' really points, so the containment for the Git repository '"@ + remote@ + "' at '"@ + git_ref@
            + "' cannot be checked.: "@ + cause@,
        TrustError::Unreadable { path, cause } => "Failed to resolve "@ + path_debug(path@) + ": "@ + cause@,
        TrustError::NativeOnlyField { repo, declared_by } => (match declared_by {
            Some(b) => "The bundle '"@ + b.remote@ + "' at '"@ + b.git_ref@
                + "' sets 'allow_nested_git_includes' on its Git include of '"@ + repo@ + "'"@,
            None => "The Git include of '"@ + repo@ + "' sets 'allow_nested_git_includes'"@,
        })
            + ", which is a ratect-native field not supported in Batect-compatible configuration. A bundle may declare Git includes of its own here regardless, matching Batect."@,
        TrustError::NestedGitRefused { remote, git_ref, repo } => "The bundle '"@ + remote@ + "' at '"@ + git_ref@
            + "' declares a Git include of its own ('"@ + repo@
            + "'), which would fetch and run configuration from a remote you have not named. Set 'allow_nested_git_includes' to true on that bundle's own include entry to accept this."@,
        TrustError::CloneFailed { repo, git_ref, detail } => "Failed to resolve Git include '"@ + repo@ + "' at '"@
            + git_ref@ + "': "@ + detail@,
        TrustError::BundleCloneFailed { repo, git_ref, remote, declaring_ref } =>
            "Failed to resolve the Git include of '"@ + repo@ + "' at '"@ + git_ref@ + "', declared by the bundle '"@
            + remote@ + "' at '"@ + declaring_ref@
            + "'. The underlying error is not shown here because that remote was named by the bundle rather than by you — re-run with RUST_LOG=debug to see it."@,
        TrustError::GrantsLost { host_paths, nested_git, repo } => "'"@ + lost_fields(host_paths, nested_git)
            + "' "@ + (if host_paths && nested_git {
            "were"@
        } else {
            "was"@
        }) + " set on the include of '"@ + repo@
            + "', but the file it pulls in had already been reached through an earlier include, and a file is only loaded once — so "@
            + (if host_paths && nested_git {
            "the permissions"@
        } else {
            "the permission"@
        })
            + " would have had no effect. Declare this include in your root configuration file, whose includes are all resolved before any bundle's own, or remove what cannot apply."@,
    }
}

impl TrustError {
    /// The refusal as the reader sees it.
    pub fn message(&self) -> (text: String)
        ensures
            text@ == error_text(*self),
    {
        let mut s = String::new();
        match self {
            TrustError::IncludeEscapes { path, remote, git_ref, via_symlink } => {
                s.append("Included file '");
                s.append(path.as_str());
                s.append("' escapes the Git repository '");
                s.append(remote.as_str());
                s.append("' at '");
                s.append(git_ref.as_str());
                s.append("' it was included from");
                if *via_symlink {
                    s.append(" (via a symlink)");
                } else {
                    s.append("");
                }
                s.append(" — includes reached through a Git include must resolve within that repository.");
            },
            TrustError::PathEscapes { path, remote, git_ref, project_dir, via_symlink } => {
                s.append("Path '");
                s.append(path.as_str());
                s.append("' escapes both the Git repository '");
                s.append(remote.as_str());
                s.append("' at '");
                s.append(git_ref.as_str());
                s.append("' it was included from and the project directory '");
                s.append(project_dir.as_str());
                s.append("'");
                if *via_symlink {
                    s.append(" (via a symlink)");
                } else {
                    s.append("");
                }
                s.append(
                    " — a container reached through a Git include must resolve its 'volumes'/'build_directory' paths within one of the two. If you trust this bundle to reach that path, set 'allow_host_paths' to true on the include entry for '",
                );
                s.append(remote.as_str());
                s.append("' in your own configuration.");
            },
            TrustError::Unresolvable { path, remote, git_ref, cause } => {
                s.append("Cannot determine where '");
                s.append(path.as_str());
                s.append("' really points, so the containment for the Git repository '");
                s.append(remote.as_str());
                s.append("' at '");
                s.append(git_ref.as_str());
                s.append("' cannot be checked.: ");
                s.append(cause.as_str());
            },
            TrustError::Unreadable { path, cause } => {
                s.append("Failed to resolve ");
                let shown = debug_path(path.as_str());
                s.append(shown.as_str());
                s.append(": ");
                s.append(cause.as_str());
            },
            TrustError::NativeOnlyField { repo, declared_by } => {
                match declared_by {
                    Some(b) => {
                        s.append("The bundle '");
                        s.append(b.remote.as_str());
                        s.append("' at '");
                        s.append(b.git_ref.as_str());
                        s.append("' sets 'allow_nested_git_includes' on its Git include of '");
                        s.append(repo.as_str());
                        s.append("'");
                    },
                    None => {
                        s.append("The Git include of '");
                        s.append(repo.as_str());
                        s.append("' sets 'allow_nested_git_includes'");
                    },
                }
                s.append(
                    ", which is a ratect-native field not supported in Batect-compatible configuration. A bundle may declare Git includes of its own here regardless, matching Batect.",
                );
            },
            TrustError::NestedGitRefused { remote, git_ref, repo } => {
                s.append("The bundle '");
                s.append(remote.as_str());
                s.append("' at '");
                s.append(git_ref.as_str());
                s.append("' declares a Git include of its own ('");
                s.append(repo.as_str());
                s.append(
                    "'), which would fetch and run configuration from a remote you have not named. Set 'allow_nested_git_includes' to true on that bundle's own include entry to accept this.",
                );
            },
            TrustError::CloneFailed { repo, git_ref, detail } => {
                s.append("Failed to resolve Git include '");
                s.append(repo.as_str());
                s.append("' at '");
                s.append(git_ref.as_str());
                s.append("': ");
                s.append(detail.as_str());
            },
            TrustError::BundleCloneFailed { repo, git_ref, remote, declaring_ref } => {
                s.append("Failed to resolve the Git include of '");
                s.append(repo.as_str());
                s.append("' at '");
                s.append(git_ref.as_str());
                s.append("', declared by the bundle '");
                s.append(remote.as_str());
                s.append("' at '");
                s.append(declaring_ref.as_str());
                s.append(
                    "'. The underlying error is not shown here because that remote was named by the bundle rather than by you — re-run with RUST_LOG=debug to see it.",
                );
            },
            TrustError::GrantsLost { host_paths, nested_git, repo } => {
                let both = *host_paths && *nested_git;
                s.append("'");
                if both {
                    s.append("allow_host_paths' and 'allow_nested_git_includes");
                } else if *host_paths {
                    s.append("allow_host_paths");
                } else {
                    s.append("allow_nested_git_includes");
                }
                s.append("' ");
                if both {
                    s.append("were");
                } else {
                    s.append("was");
                }
                s.append(" set on the include of '");
                s.append(repo.as_str());
                s.append(
                    "', but the file it pulls in had already been reached through an earlier include, and a file is only loaded once — so ",
                );
                if both {
                    s.append("the permissions");
                } else {
                    s.append("the permission");
                }
                s.append(
                    " would have had no effect. Declare this include in your root configuration file, whose includes are all resolved before any bundle's own, or remove what cannot apply.",
                );
            },
        }
        s
    }
}

/// Whether `named` names the bundle `declaring` (and nothing where it is
/// `None`).
pub open spec fn names_declaring(named: Option<BundleId>, declaring: Option<&Bundle>) -> bool {
    match (named, declaring) {
        (Some(n), Some(b)) => same_id(n, b.id),
        (None, None) => true,
        _ => false,
    }
}

/// Whether `check_dialect` refuses an entry asking for `asked` in a
/// project of `format`: the native-only field is written, whatever its
/// value, in a Batect-compatible project.
pub open spec fn dialect_refuses(asked: Grants, format: ConfigFormat) -> bool {
    asked.nested_git is Some && format == ConfigFormat::Compat
}

/// Refuses `allow_nested_git_includes` in a Batect-compatible project, where
/// it is a field Batect has never had. Rejects `false` as well as `true`:
/// the field is unsupported, not the permission. Names where it was written,
/// since it can appear inside a bundle.
pub fn check_dialect(asked: Grants, declaring: Option<&Bundle>, repo: &str, format: ConfigFormat) -> (checked:
    Result<(), TrustError>)
    ensures
        checked is Err <==> dialect_refuses(asked, format),
        checked matches Err(e) ==> (e matches TrustError::NativeOnlyField { repo: r, declared_by: d } && r@
            == repo@ && names_declaring(d, declaring)),
{
    if asked.nested_git.is_none() || format == ConfigFormat::Native {
        return Ok(());
    }
    let declared_by = match declaring {
        Some(b) => Some(b.id.duplicate()),
        None => None,
    };
    Err(TrustError::NativeOnlyField { repo: repo.to_string(), declared_by })
}

/// [`refusing_nested_git`], rendered as the refusal with its remedy. Called
/// before the clone, so a bundle naming an unreachable remote cannot even be
/// used to probe for one.
pub fn check_may_declare_git(restricted: Option<&Bundle>, repo: &str) -> (checked: Result<(), TrustError>)
    ensures
        checked is Err <==> refused_by(restricted) is Some,
        checked matches Err(e) ==> (e matches TrustError::NestedGitRefused { remote, git_ref, repo: r } && r@
            == repo@ && remote@ == refused_by(restricted).unwrap().id.remote@ && git_ref@ == refused_by(
            restricted,
        ).unwrap().id.git_ref@),
{
    match refusing_nested_git(restricted) {
        None => Ok(()),
        Some(declaring) => Err(
            TrustError::NestedGitRefused {
                remote: declaring.id.remote.clone(),
                git_ref: declaring.id.git_ref.clone(),
                repo: repo.to_string(),
            },
        ),
    }
}

/// Completion declines exactly when the loader refuses: the loader raises
/// [`check_may_declare_git`]'s refusal, completion reads
/// [`refusing_nested_git`], and both come from one answer.
pub proof fn lemma_completion_and_loader_agree(restricted: Option<&Bundle>, checked: Result<(), TrustError>)
    requires
        checked is Err <==> refused_by(restricted) is Some,
    ensures
        refused_by(restricted) is Some <==> checked is Err,
        refused_by(restricted) is Some <==> (restricted is Some && !restricted.unwrap().trust.nested_git),
{
}

/// Turns a refusal into completion's decline: no error to raise, just
/// whether something refused this file.
pub fn refuse_read(check: Result<(), TrustError>) -> (refused: bool)
    ensures
        refused == check is Err,
{
    check.is_err()
}

/// Attributes a failed Git-include clone whose own account is `detail`,
/// keeping that account only when the project owner named the remote
/// themselves: `restricted` is [`restricting`]'s answer, so this and
/// [`check_may_declare_git`] cannot disagree about which includes are a
/// bundle's own. Where a bundle named the remote, git's account (which can
/// tell host-unreachable from auth-failed) is withheld from the error.
pub fn hide_clone_detail(detail: &str, repo: &str, git_ref: &str, restricted: Option<&Bundle>) -> (error: TrustError)
    ensures
        restricted is None ==> (error matches TrustError::CloneFailed { repo: r, git_ref: g, detail: d } && r@
            == repo@ && g@ == git_ref@ && d@ == detail@),
        restricted matches Some(b) ==> (error matches TrustError::BundleCloneFailed {
            repo: r,
            git_ref: g,
            remote,
            declaring_ref,
        } && r@ == repo@ && g@ == git_ref@ && remote@ == b.id.remote@ && declaring_ref@ == b.id.git_ref@),
{
    match restricted {
        None => TrustError::CloneFailed {
            repo: repo.to_string(),
            git_ref: git_ref.to_string(),
            detail: detail.to_string(),
        },
        Some(declaring) => TrustError::BundleCloneFailed {
            repo: repo.to_string(),
            git_ref: git_ref.to_string(),
            remote: declaring.id.remote.clone(),
            declaring_ref: declaring.id.git_ref.clone(),
        },
    }
}

/// The trust each already-loaded file was loaded under, keyed on the file:
/// a file reachable by more than one route keeps whichever route arrived
/// first. `None` against a file means it was loaded under no boundary at
/// all, the project owner's own tree, which is strictly more permissive than
/// any grant.
pub struct EffectiveGrants {
    files: TextMap<Option<Trust>>,
}

/// The trust a later route is compared against at `file`: `None` where the
/// file was loaded under no boundary, and granted nothing where it was never
/// recorded (the strictest thing it could have been).
pub open spec fn effective_trust(files: Map<Seq<char>, Option<Trust>>, file: Seq<char>) -> Option<Trust> {
    if files.contains_key(file) {
        files[file]
    } else {
        Some(Trust::none())
    }
}

/// Whether an entry carrying `wanted` loses a permission at a file loaded
/// under `effective`.
pub open spec fn loses_grant(effective: Option<Trust>, wanted: Trust) -> bool {
    match effective {
        None => false,
        Some(t) => (wanted.host_paths && !t.host_paths) || (wanted.nested_git && !t.nested_git),
    }
}

impl EffectiveGrants {
    /// What each recorded file was loaded under, by its path.
    pub closed spec fn loaded(&self) -> Map<Seq<char>, Option<Trust>> {
        self.files@
    }

    /// Nothing recorded yet.
    pub fn new() -> (grants: Self)
        ensures
            grants.loaded() == Map::<Seq<char>, Option<Trust>>::empty(),
    {
        EffectiveGrants { files: TextMap::new() }
    }

    /// Records that `file` was loaded under `trust` (`None` for an owned
    /// file, which has no boundary), on first arrival only: a second write
    /// would silently redefine what every later route is compared against.
    fn record_first(&mut self, file: String, trust: Option<Trust>)
        ensures
            old(self).loaded().contains_key(file@) ==> final(self).loaded() == old(self).loaded(),
            !old(self).loaded().contains_key(file@) ==> final(self).loaded() == old(self).loaded().insert(
                file@,
                trust,
            ),
    {
        if !self.files.contains_key(file.as_str()) {
            self.files.insert(file, trust);
        }
    }

    /// Records that `file` was loaded under the boundary granting `trust`,
    /// unless an earlier route already reached it.
    pub fn record(&mut self, file: String, trust: Trust)
        ensures
            old(self).loaded().contains_key(file@) ==> final(self).loaded() == old(self).loaded(),
            !old(self).loaded().contains_key(file@) ==> final(self).loaded() == old(self).loaded().insert(
                file@,
                Some(trust),
            ),
    {
        self.record_first(file, Some(trust));
    }

    /// Records that `file`, part of the project owner's own tree, was loaded
    /// under no boundary, unless an earlier route already reached it.
    pub fn record_unbounded(&mut self, file: String)
        ensures
            old(self).loaded().contains_key(file@) ==> final(self).loaded() == old(self).loaded(),
            !old(self).loaded().contains_key(file@) ==> final(self).loaded() == old(self).loaded().insert(
                file@,
                None,
            ),
    {
        self.record_first(file, None);
    }

    /// Refuses an entry carrying `wanted` that reaches the already-loaded
    /// `file` loaded with less. Only ever refuses a permission being lost: a
    /// route granting less than the winning one is the ordinary case. Every
    /// lost field is named, not the first; `repo` is the repository the lost
    /// grant was written against.
    pub fn check(&self, file: &str, wanted: Trust, repo: &str) -> (checked: Result<(), TrustError>)
        ensures
            checked is Err <==> loses_grant(effective_trust(self.loaded(), file@), wanted),
            checked matches Err(e) ==> (e matches TrustError::GrantsLost { host_paths, nested_git, repo: r } && r@
                == repo@ && host_paths == (wanted.host_paths && !effective_trust(
                self.loaded(),
                file@,
            ).unwrap().host_paths) && nested_git == (wanted.nested_git && !effective_trust(
                self.loaded(),
                file@,
            ).unwrap().nested_git)),
    {
        let effective = match self.files.get(file) {
            Some(None) => return Ok(()),
            Some(Some(trust)) => *trust,
            None => Trust::none(),
        };
        let host_paths = wanted.host_paths && !effective.host_paths;
        let nested_git = wanted.nested_git && !effective.nested_git;
        if !host_paths && !nested_git {
            return Ok(());
        }
        Err(TrustError::GrantsLost { host_paths, nested_git, repo: repo.to_string() })
    }
}

/// First arrival wins: once a file is recorded, recording it again, under
/// any trust or none, leaves what every later route is compared against
/// unchanged.
pub proof fn lemma_first_arrival_wins(
    before: Map<Seq<char>, Option<Trust>>,
    after: Map<Seq<char>, Option<Trust>>,
    file: Seq<char>,
)
    requires
        before.contains_key(file),
        before.contains_key(file) ==> after == before,
    ensures
        effective_trust(after, file) == effective_trust(before, file),
{
}

/// A route asking for no more than the winning one always loads, and a
/// file loaded under no boundary never refuses anything.
pub proof fn lemma_asking_for_less_never_refuses(effective: Option<Trust>, wanted: Trust)
    requires
        effective matches Some(t) ==> (wanted.host_paths ==> t.host_paths) && (wanted.nested_git ==> t.nested_git),
    ensures
        !loses_grant(effective, wanted),
{
}

/// What `path_clean::clean` makes of a path: its lexically cleaned form.
pub uninterp spec fn cleaned(path: Seq<char>) -> Seq<char>;

/// Whether `base` is a prefix of `path` in whole path components, as
/// `std::path::Path::starts_with` decides.
pub uninterp spec fn path_within(path: Seq<char>, base: Seq<char>) -> bool;

/// `path_clean::clean`: removes `.` components and repeated slashes and
/// resolves each `..` against the component before it, lexically and
/// without touching the filesystem. The result is named, not described.
#[verifier::external_body]
fn clean_path(path: &str) -> (clean: String)
    ensures
        clean@ == cleaned(path@),
{
    path_clean::clean(path).to_string_lossy().into_owned()
}

/// How `{:?}` writes the path `text`: quoted, with quotes, backslashes and
/// control characters escaped.
pub uninterp spec fn path_debug(text: Seq<char>) -> Seq<char>;

/// `std::path::Path`'s `Debug`, written by `format!`, of the path `text`.
/// The text is named, not described.
#[verifier::external_body]
fn debug_path(text: &str) -> (shown: String)
    ensures
        shown@ == path_debug(text@),
{
    format!("{:?}", std::path::Path::new(text))
}

/// `std::path::Path::starts_with`: whether `base` is a prefix of `path`,
/// matching whole components only. The result is named, not described.
#[verifier::external_body]
fn starts_with_path(path: &str, base: &str) -> (within: bool)
    ensures
        within == path_within(path@, base@),
{
    std::path::Path::new(path).starts_with(base)
}

/// The Git-clone boundary a file's own further includes must stay within,
/// once traversal has crossed into a Git-included bundle: `repo_dir` is the
/// containment half, `bundle` the grants half. A grant deliberately does not
/// relax the include-path containment, only where containers may mount.
pub struct Boundary {
    pub repo_dir: String,
    pub bundle: Bundle,
}

impl Boundary {
    /// Purely lexical containment of an include's target: runs before the
    /// target is known to exist, so a path engineered to escape is rejected
    /// without touching the filesystem where it points. Cleans `resolved`
    /// itself, since a component-wise prefix test passes
    /// `<repo_dir>/../../elsewhere` otherwise.
    pub fn check_contains(&self, resolved: &str) -> (checked: Result<(), TrustError>)
        ensures
            checked is Ok <==> path_within(cleaned(resolved@), self.repo_dir@),
            checked matches Err(e) ==> (e matches TrustError::IncludeEscapes { path, remote, git_ref, via_symlink }
                && path@ == cleaned(resolved@) && remote@ == self.bundle.id.remote@ && git_ref@
                == self.bundle.id.git_ref@ && !via_symlink),
    {
        let clean = clean_path(resolved);
        if starts_with_path(clean.as_str(), self.repo_dir.as_str()) {
            return Ok(());
        }
        Err(
            TrustError::IncludeEscapes {
                path: clean,
                remote: self.bundle.id.remote.clone(),
                git_ref: self.bundle.id.git_ref.clone(),
                via_symlink: false,
            },
        )
    }

    /// The second check on an include's target, once it is known to exist:
    /// against `canonical_target` and `canonical_root`, the symlink-resolved
    /// forms of `resolved` and of the repository (or why either could not be
    /// resolved). Closes the gap the lexical check leaves: a symlink planted
    /// inside the clone that points back outside it.
    pub fn check_contains_canonical(
        &self,
        resolved: &str,
        canonical_target: Result<String, String>,
        canonical_root: Result<String, String>,
    ) -> (checked: Result<(), TrustError>)
        ensures
            checked is Ok <==> (canonical_target matches Ok(t) && canonical_root matches Ok(r) && path_within(
                t@,
                r@,
            )),
            canonical_target matches Err(cause) ==> (checked matches Err(e) && e matches TrustError::Unreadable {
                path,
                cause: c,
            } && path@ == resolved@ && c@ == cause@),
            canonical_target is Ok ==> (canonical_root matches Err(cause) ==> (checked matches Err(e)
                && e matches TrustError::Unreadable { path, cause: c } && path@ == self.repo_dir@ && c@ == cause@)),
            canonical_target is Ok && canonical_root is Ok && checked is Err ==> (checked matches Err(e)
                && e matches TrustError::IncludeEscapes { path, remote, git_ref, via_symlink } && path@ == resolved@
                && remote@ == self.bundle.id.remote@ && git_ref@ == self.bundle.id.git_ref@ && via_symlink),
    {
        let target = match canonical_target {
            Ok(t) => t,
            Err(cause) => {
                return Err(TrustError::Unreadable { path: resolved.to_string(), cause });
            },
        };
        let root = match canonical_root {
            Ok(r) => r,
            Err(cause) => {
                return Err(TrustError::Unreadable { path: self.repo_dir.clone(), cause });
            },
        };
        if starts_with_path(target.as_str(), root.as_str()) {
            return Ok(());
        }
        Err(
            TrustError::IncludeEscapes {
                path: resolved.to_string(),
                remote: self.bundle.id.remote.clone(),
                git_ref: self.bundle.id.git_ref.clone(),
                via_symlink: true,
            },
        )
    }

    /// The lexical half of containment for a Git-included container's
    /// `volumes`/`build_directory` path, which may also lie in the project
    /// directory `project_dir`. `Ok(None)`: allowed outright, the bundle
    /// being granted host paths. `Ok(Some(clean))`: its cleaned spelling
    /// `clean` stays inside; where it really points must be checked next,
    /// with [`Boundary::check_real_path_allowed`]. `Err`: its spelling
    /// already leaves both roots.
    pub fn check_path_allowed(&self, resolved: &str, project_dir: &str) -> (checked: Result<
        Option<String>,
        TrustError,
    >)
        ensures
            self.bundle.trust.host_paths ==> checked == Ok::<Option<String>, TrustError>(None),
            !self.bundle.trust.host_paths ==> (checked is Ok <==> (path_within(cleaned(resolved@), self.repo_dir@)
                || path_within(cleaned(resolved@), project_dir@))),
            !self.bundle.trust.host_paths ==> (checked matches Ok(c) ==> c matches Some(p) && p@ == cleaned(
                resolved@,
            )),
            checked matches Err(e) ==> (e matches TrustError::PathEscapes {
                path,
                remote,
                git_ref,
                project_dir: p,
                via_symlink,
            } && path@ == cleaned(resolved@) && remote@ == self.bundle.id.remote@ && git_ref@
                == self.bundle.id.git_ref@ && p@ == project_dir@ && !via_symlink),
    {
        let clean = clean_path(resolved);
        if self.bundle.trust.host_paths {
            return Ok(None);
        }
        if starts_with_path(clean.as_str(), self.repo_dir.as_str()) || starts_with_path(
            clean.as_str(),
            project_dir,
        ) {
            return Ok(Some(clean));
        }
        Err(self.refuse_escape(clean, project_dir, false))
    }

    /// The real-location half of [`Boundary::check_path_allowed`], for the
    /// cleaned path `clean` it passed: `real_path`, `real_repo` and
    /// `real_project` are where `clean`, the repository and the project
    /// directory really point, resolved as far as each exists (or why that
    /// could not be determined). A bundle can commit a symlink inside its
    /// own clone whose target is elsewhere, and Docker dereferences it.
    pub fn check_real_path_allowed(
        &self,
        clean: &str,
        project_dir: &str,
        real_path: Result<String, String>,
        real_repo: Result<String, String>,
        real_project: Result<String, String>,
    ) -> (checked: Result<(), TrustError>)
        ensures
            checked is Ok <==> (real_path matches Ok(p) && real_repo matches Ok(r) && (path_within(p@, r@) || (
            real_project matches Ok(q) && path_within(p@, q@)))),
            real_path matches Err(cause) ==> (checked matches Err(e) && self.unresolvable(e, clean@, cause@)),
            real_path is Ok ==> (real_repo matches Err(cause) ==> (checked matches Err(e) && self.unresolvable(
                e,
                self.repo_dir@,
                cause@,
            ))),
            real_path matches Ok(p) ==> (real_repo matches Ok(r) ==> (!path_within(p@, r@) ==> (
            real_project matches Err(cause) ==> (checked matches Err(e) && self.unresolvable(
                e,
                project_dir@,
                cause@,
            ))))),
            real_path is Ok && real_repo is Ok && real_project is Ok && checked is Err ==> (checked matches Err(e)
                && e matches TrustError::PathEscapes { path, remote, git_ref, project_dir: d, via_symlink } && path@
                == clean@ && remote@ == self.bundle.id.remote@ && git_ref@ == self.bundle.id.git_ref@ && d@
                == project_dir@ && via_symlink),
    {
        let target = match real_path {
            Ok(p) => p,
            Err(cause) => {
                return Err(self.cannot_resolve(clean, cause));
            },
        };
        let repo = match real_repo {
            Ok(r) => r,
            Err(cause) => {
                return Err(self.cannot_resolve(self.repo_dir.as_str(), cause));
            },
        };
        if starts_with_path(target.as_str(), repo.as_str()) {
            return Ok(());
        }
        let project = match real_project {
            Ok(q) => q,
            Err(cause) => {
                return Err(self.cannot_resolve(project_dir, cause));
            },
        };
        if starts_with_path(target.as_str(), project.as_str()) {
            return Ok(());
        }
        Err(self.refuse_escape(clean.to_string(), project_dir, true))
    }

    /// Whether `e` says that where `path` really points could not be
    /// determined, for `cause`, naming this bundle.
    pub open spec fn unresolvable(&self, e: TrustError, path: Seq<char>, cause: Seq<char>) -> bool {
        e matches TrustError::Unresolvable { path: p, remote, git_ref, cause: c } && p@ == path && remote@
            == self.bundle.id.remote@ && git_ref@ == self.bundle.id.git_ref@ && c@ == cause
    }

    /// Where `path` really points could not be determined, for `cause`.
    fn cannot_resolve(&self, path: &str, cause: String) -> (e: TrustError)
        ensures
            self.unresolvable(e, path@, cause@),
    {
        TrustError::Unresolvable {
            path: path.to_string(),
            remote: self.bundle.id.remote.clone(),
            git_ref: self.bundle.id.git_ref.clone(),
            cause,
        }
    }

    /// The refusal both halves of [`Boundary::check_path_allowed`] raise.
    fn refuse_escape(&self, path: String, project_dir: &str, via_symlink: bool) -> (e: TrustError)
        ensures
            e matches TrustError::PathEscapes { path: p, remote, git_ref, project_dir: d, via_symlink: v } && p@
                == path@ && remote@ == self.bundle.id.remote@ && git_ref@ == self.bundle.id.git_ref@ && d@
                == project_dir@ && v == via_symlink,
    {
        TrustError::PathEscapes {
            path,
            remote: self.bundle.id.remote.clone(),
            git_ref: self.bundle.id.git_ref.clone(),
            project_dir: project_dir.to_string(),
            via_symlink,
        }
    }
}

/// The lexical half of whether an include's target `resolved` stays inside
/// `boundary`'s repository. `Ok(false)`: no boundary applies at all (an
/// owned file, contained by nothing), so nothing more is checked.
/// `Ok(true)`: its spelling stays inside, and the symlink-resolved check,
/// [`Boundary::check_contains_canonical`], comes next. `Err`: it escapes.
pub fn boundary_contains(boundary: Option<&Boundary>, resolved: &str) -> (checked: Result<bool, TrustError>)
    ensures
        boundary is None ==> checked == Ok::<bool, TrustError>(false),
        boundary matches Some(b) ==> (checked is Ok <==> path_within(cleaned(resolved@), b.repo_dir@)),
        boundary is Some ==> (checked matches Ok(more) ==> more),
        boundary matches Some(b) ==> (checked matches Err(e) ==> e matches TrustError::IncludeEscapes {
            path,
            remote,
            git_ref,
            via_symlink,
        } && path@ == cleaned(resolved@) && remote@ == b.bundle.id.remote@ && git_ref@ == b.bundle.id.git_ref@
            && !via_symlink),
{
    match boundary {
        None => Ok(false),
        Some(b) => match b.check_contains(resolved) {
            Ok(()) => Ok(true),
            Err(e) => Err(e),
        },
    }
}

// ---------------------------------------------------------------------
// Where a path really points, as far as it exists
// ---------------------------------------------------------------------

/// What canonicalizing one candidate ancestor found.
pub enum Canonicalized {
    /// It exists, and this is its form with every symlink resolved.
    Found(String),
    /// It does not exist.
    Missing,
    /// Something else stopped it: an ancestor that may not be searched, a
    /// symlink loop. The reason is given.
    Failed(String),
}

/// What to do next in the search for the longest existing ancestor.
pub enum RealPathStep {
    /// Canonicalize this candidate.
    Try(String),
    /// The search is over: the path's real form.
    Resolved(String),
    /// The search failed, for this reason.
    Failed(String),
}

/// `base` with the missing components `tail` (nearest the path first)
/// appended again, farthest first.
pub open spec fn rejoined(base: Seq<char>, tail: Seq<Seq<char>>) -> Seq<char>
    decreases tail.len(),
{
    if tail.len() == 0 {
        base
    } else {
        rejoined(joined_path(base, tail.last()), tail.drop_last())
    }
}

/// A search, from a path upwards, for its longest existing ancestor: the
/// candidate being tried, and the components dropped to reach it, nearest
/// the path first.
pub struct RealPathSearch {
    path: String,
    candidate: String,
    missing_tail: Vec<String>,
}

impl RealPathSearch {
    /// The path being resolved.
    pub closed spec fn path_spec(&self) -> Seq<char> {
        self.path@
    }

    /// The candidate to canonicalize next.
    pub closed spec fn candidate_spec(&self) -> Seq<char> {
        self.candidate@
    }

    /// The components dropped so far, nearest the path first.
    pub closed spec fn tail_spec(&self) -> Seq<Seq<char>> {
        self.missing_tail@.map_values(|part: String| part@)
    }

    /// A search for `path`'s real form, starting with `path` itself.
    pub fn new(path: &str) -> (search: Self)
        ensures
            search.path_spec() == path@,
            search.candidate_spec() == path@,
            search.tail_spec() == Seq::<Seq<char>>::empty(),
    {
        let search = RealPathSearch { path: path.to_string(), candidate: path.to_string(), missing_tail: Vec::new() };
        assert(search.tail_spec() =~= Seq::<Seq<char>>::empty());
        search
    }

    /// The candidate to canonicalize next.
    pub fn candidate(&self) -> (candidate: &str)
        ensures
            candidate@ == self.candidate_spec(),
    {
        self.candidate.as_str()
    }

    /// The next step, given what canonicalizing the candidate found and,
    /// where the candidate has both, its parent and its file name. A found
    /// candidate ends the search with the dropped components appended
    /// again; a missing one moves the search to its parent, or, with none
    /// left, ends it with the path as it was spelled (it cannot point
    /// anywhere yet); any other failure ends it in failure, since the
    /// daemon that dereferences the path may see what this process cannot.
    pub fn step(&mut self, found: Canonicalized, split: Option<(String, String)>) -> (next: RealPathStep)
        ensures
            final(self).path_spec() == old(self).path_spec(),
            match found {
                Canonicalized::Found(canonical) => {
                    &&& next matches RealPathStep::Resolved(r) && r@ == rejoined(canonical@, old(self).tail_spec())
                    &&& final(self).candidate_spec() == old(self).candidate_spec()
                    &&& final(self).tail_spec() == old(self).tail_spec()
                },
                Canonicalized::Failed(reason) => {
                    &&& next matches RealPathStep::Failed(why) && why@ == reason@
                    &&& final(self).candidate_spec() == old(self).candidate_spec()
                    &&& final(self).tail_spec() == old(self).tail_spec()
                },
                Canonicalized::Missing => match split {
                    Some((parent, name)) => {
                        &&& next matches RealPathStep::Try(t) && t@ == parent@
                        &&& final(self).candidate_spec() == parent@
                        &&& final(self).tail_spec() == old(self).tail_spec().push(name@)
                    },
                    None => {
                        &&& next matches RealPathStep::Resolved(r) && r@ == old(self).path_spec()
                        &&& final(self).candidate_spec() == old(self).candidate_spec()
                        &&& final(self).tail_spec() == old(self).tail_spec()
                    },
                },
            },
    {
        match found {
            Canonicalized::Found(canonical) => {
                let mut resolved = canonical;
                let mut i: usize = self.missing_tail.len();
                let ghost tail = self.tail_spec();
                let ghost base = resolved@;
                assert(tail.take(i as int) =~= tail);
                while i > 0
                    invariant
                        i <= self.missing_tail@.len(),
                        tail == self.missing_tail@.map_values(|part: String| part@),
                        rejoined(resolved@, tail.take(i as int)) == rejoined(base, tail),
                    decreases i,
                {
                    resolved = join_path(resolved.as_str(), self.missing_tail[i - 1].as_str());
                    proof {
                        assert(tail.take(i as int).last() == tail[i - 1]);
                        assert(tail.take(i as int).drop_last() =~= tail.take(i - 1));
                    }
                    i = i - 1;
                }
                assert(tail.take(0) =~= Seq::<Seq<char>>::empty());
                RealPathStep::Resolved(resolved)
            },
            Canonicalized::Failed(reason) => RealPathStep::Failed(reason),
            Canonicalized::Missing => match split {
                Some((parent, name)) => {
                    let next = parent.clone();
                    self.candidate = parent;
                    self.missing_tail.push(name);
                    proof {
                        assert(self.tail_spec() =~= old(self).tail_spec().push(self.missing_tail@.last()@));
                    }
                    RealPathStep::Try(next)
                },
                None => RealPathStep::Resolved(self.path.clone()),
            },
        }
    }
}

} // verus!
