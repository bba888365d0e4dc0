//! The decisions of the `plugin` commands: which command runs, which
//! registry and trusted identities apply, which plugins a pattern or an
//! upgrade request selects, how each plugin's installation proceeds, and how
//! outcomes are tallied.

use vstd::prelude::*;
use crate::config::{DrasiServerConfig, TrustedIdentity};
use crate::config_value::opt_chars;
use crate::reaction::strings_view;
use crate::text::{chars_of, owned, str_eq};
use crate::wildcard::{is_wildcard_pattern, is_wildcard_spec, plugin_matches_spec, wildcard_matches_plugin};

verus! {

// ---------------------------------------------------------------------------
// Source types and registries
// ---------------------------------------------------------------------------

/// Where a plugin reference points.
#[derive(Debug, Clone, Copy, PartialEq, Eq, Structural)]
pub enum SourceKind {
    /// A local `file://` URI.
    File,
    /// An `http://` or `https://` URI.
    Http,
    /// An OCI image reference.
    Oci,
}

/// `s` begins with `p`.
pub open spec fn starts_with(s: Seq<char>, p: Seq<char>) -> bool {
    p.len() <= s.len() && s.subrange(0, p.len() as int) == p
}

/// Where a reference points: `file://` URIs are files, `http://` and
/// `https://` URIs are web downloads, anything else is an OCI reference.
pub open spec fn source_kind_spec(reference: Seq<char>) -> SourceKind {
    if starts_with(reference, "file://"@) {
        SourceKind::File
    } else if starts_with(reference, "http://"@) || starts_with(reference, "https://"@) {
        SourceKind::Http
    } else {
        SourceKind::Oci
    }
}

/// Whether `s` begins with `p`.
pub fn has_prefix(s: &str, p: &str) -> (r: bool)
    ensures
        r == starts_with(s@, p@),
{
    let n = s.unicode_len();
    let m = p.unicode_len();
    if m > n {
        return false;
    }
    let mut i: usize = 0;
    while i < m
        invariant
            n == s@.len(),
            m == p@.len(),
            m <= n,
            i <= m,
            forall|j: int| 0 <= j < i ==> s@[j] == p@[j],
        decreases m - i,
    {
        if s.get_char(i) != p.get_char(i) {
            assert(s@.subrange(0, m as int)[i as int] != p@[i as int]);
            return false;
        }
        i = i + 1;
    }
    assert(s@.subrange(0, m as int) =~= p@);
    true
}

/// Where a plugin reference points (the rule of
/// `drasi_host_sdk::fetcher::parse_source_type`).
pub fn source_kind(reference: &str) -> (r: SourceKind)
    ensures
        r == source_kind_spec(reference@),
{
    if has_prefix(reference, "file://") {
        SourceKind::File
    } else if has_prefix(reference, "http://") || has_prefix(reference, "https://") {
        SourceKind::Http
    } else {
        SourceKind::Oci
    }
}

/// How a single plugin reference is installed.
#[derive(Debug, Clone, Copy, PartialEq, Eq, Structural)]
pub enum InstallRoute {
    /// Fetched from its `file://` or web URI.
    Uri,
    /// Every registry plugin that an OCI pattern matches.
    OciPattern,
    /// One OCI reference, resolved in the registry.
    Oci,
}

/// `file://` and web URIs are fetched directly; an OCI reference with a
/// wildcard installs what it matches; any other OCI reference is resolved.
pub open spec fn install_route_spec(reference: Seq<char>) -> InstallRoute {
    match source_kind_spec(reference) {
        SourceKind::File | SourceKind::Http => InstallRoute::Uri,
        SourceKind::Oci => if is_wildcard_spec(reference) {
            InstallRoute::OciPattern
        } else {
            InstallRoute::Oci
        },
    }
}

/// How `install <reference>` proceeds.
pub fn install_route(reference: &str) -> (r: InstallRoute)
    ensures
        r == install_route_spec(reference@),
{
    match source_kind(reference) {
        SourceKind::File | SourceKind::Http => InstallRoute::Uri,
        SourceKind::Oci => if is_wildcard_pattern(reference) {
            InstallRoute::OciPattern
        } else {
            InstallRoute::Oci
        },
    }
}

/// The registry used when none is configured.
pub open spec fn default_registry() -> Seq<char> {
    "ghcr.io/drasi-project"@
}

/// The registry for short plugin names: an explicit override, else the
/// configuration's registry when the config file could be read (`config`),
/// else the default registry.
pub fn get_plugin_registry(config: Option<&DrasiServerConfig>, override_registry: Option<&str>) -> (r: String)
    ensures
        r@ == match override_registry {
            Some(o) => o@,
            None => match config {
                Some(c) => match opt_chars(c.plugin_registry) {
                    Some(p) => p,
                    None => default_registry(),
                },
                None => default_registry(),
            },
        },
{
    if let Some(r) = override_registry {
        return owned(r);
    }
    match config {
        Some(c) => match &c.plugin_registry {
            Some(p) => p.clone(),
            None => owned("ghcr.io/drasi-project"),
        },
        None => owned("ghcr.io/drasi-project"),
    }
}

/// The identities trusted to sign plugins: those the configuration lists, or
/// the drasi-project GitHub Actions identity when it lists none or the config
/// file could not be read.
pub fn trusted_identities_for(config: Option<&DrasiServerConfig>) -> (r: Vec<TrustedIdentity>)
    ensures
        match config {
            Some(c) => c.trusted_identities@.len() > 0,
            None => false,
        } ==> r@.len() == config->Some_0.trusted_identities@.len() && forall|i: int|
            0 <= i < r@.len() ==> (#[trigger] r@[i]).issuer@ == config->Some_0.trusted_identities@[i].issuer@
                && r@[i].subject_pattern@ == config->Some_0.trusted_identities@[i].subject_pattern@,
        !match config {
            Some(c) => c.trusted_identities@.len() > 0,
            None => false,
        } ==> r@.len() == 1 && r@[0].issuer@ == "https://token.actions.githubusercontent.com"@
            && r@[0].subject_pattern@ == "https://github.com/drasi-project/*"@,
{
    let mut out: Vec<TrustedIdentity> = Vec::new();
    match config {
        Some(c) => {
            if c.trusted_identities.len() > 0 {
                let mut i: usize = 0;
                while i < c.trusted_identities.len()
                    invariant
                        i <= c.trusted_identities@.len(),
                        out@.len() == i,
                        forall|j: int| 0 <= j < i ==> (#[trigger] out@[j]).issuer@ == c.trusted_identities@[j].issuer@
                            && out@[j].subject_pattern@ == c.trusted_identities@[j].subject_pattern@,
                    decreases c.trusted_identities.len() - i,
                {
                    out.push(
                        TrustedIdentity {
                            issuer: c.trusted_identities[i].issuer.clone(),
                            subject_pattern: c.trusted_identities[i].subject_pattern.clone(),
                        },
                    );
                    i = i + 1;
                }
                return out;
            }
        },
        None => {},
    }
    out.push(
        TrustedIdentity {
            issuer: owned("https://token.actions.githubusercontent.com"),
            subject_pattern: owned("https://github.com/drasi-project/*"),
        },
    );
    out
}

// ---------------------------------------------------------------------------
// Commands
// ---------------------------------------------------------------------------

/// The `plugin` subcommands.
pub enum PluginAction {
    /// Install a plugin by reference, or all plugins the config file declares.
    Install {
        reference: Option<String>,
        from_config: bool,
        registry: Option<String>,
        platform: Option<String>,
        locked: bool,
    },
    /// List installed plugins.
    List,
    /// Search a registry for a plugin's versions.
    Search { reference: String, registry: Option<String> },
    /// Remove an installed plugin.
    Remove { reference: String },
    /// Install every plugin the registry offers.
    InstallAll { registry: Option<String> },
    /// Upgrade installed plugins.
    Upgrade { reference: Option<String>, all: bool, registry: Option<String>, dry_run: bool },
}

/// The task a `plugin` subcommand runs.
pub enum PluginTask {
    InstallFromConfig { registry: Option<String>, locked: bool },
    InstallSingle { reference: String, registry: Option<String> },
    List,
    Search { reference: String, registry: Option<String> },
    Remove { reference: String },
    InstallAll { registry: Option<String> },
    Upgrade { reference: Option<String>, all: bool, registry: Option<String>, dry_run: bool },
}

/// The task of a subcommand: `install --from-config` installs from the config
/// file, `install <reference>` installs one plugin, and `install` with
/// neither is refused with the message below; the other subcommands run
/// their own task.
pub fn plan_plugin_command(action: PluginAction) -> (r: Result<PluginTask, String>)
    ensures
        match action {
            PluginAction::Install { reference, from_config, registry, locked, .. } => if from_config {
                r matches Ok(PluginTask::InstallFromConfig { registry: reg, locked: l }) && reg == registry && l
                    == locked
            } else {
                match reference {
                    Some(s) => r matches Ok(PluginTask::InstallSingle { reference: rf, registry: reg }) && rf == s
                        && reg == registry,
                    None => r matches Err(m) && m@ == "provide a plugin reference or --from-config"@,
                }
            },
            PluginAction::List => r matches Ok(PluginTask::List),
            PluginAction::Search { reference, registry } => r == Ok::<PluginTask, String>(
                PluginTask::Search { reference, registry },
            ),
            PluginAction::Remove { reference } => r == Ok::<PluginTask, String>(PluginTask::Remove { reference }),
            PluginAction::InstallAll { registry } => r == Ok::<PluginTask, String>(PluginTask::InstallAll { registry }),
            PluginAction::Upgrade { reference, all, registry, dry_run } => r == Ok::<PluginTask, String>(
                PluginTask::Upgrade { reference, all, registry, dry_run },
            ),
        },
{
    match action {
        PluginAction::Install { reference, from_config, registry, platform: _, locked } => {
            if from_config {
                Ok(PluginTask::InstallFromConfig { registry, locked })
            } else {
                match reference {
                    Some(s) => Ok(PluginTask::InstallSingle { reference: s, registry }),
                    None => Err(owned("provide a plugin reference or --from-config")),
                }
            }
        },
        PluginAction::List => Ok(PluginTask::List),
        PluginAction::Search { reference, registry } => Ok(PluginTask::Search { reference, registry }),
        PluginAction::Remove { reference } => Ok(PluginTask::Remove { reference }),
        PluginAction::InstallAll { registry } => Ok(PluginTask::InstallAll { registry }),
        PluginAction::Upgrade { reference, all, registry, dry_run } => Ok(
            PluginTask::Upgrade { reference, all, registry, dry_run },
        ),
    }
}

// ---------------------------------------------------------------------------
// Installing
// ---------------------------------------------------------------------------

/// How the installation of one plugin ended.
#[derive(Debug, Clone, Copy, PartialEq, Eq, Structural)]
pub enum InstallOutcome {
    Installed,
    AlreadyInstalled,
    Failed,
}

/// The outcomes of an installation run, counted.
#[derive(Debug, Clone, Copy, PartialEq, Eq, Structural)]
pub struct InstallTally {
    pub installed: usize,
    pub existing: usize,
    pub failed: usize,
}

impl InstallTally {
    /// No outcome yet.
    pub fn new() -> (r: InstallTally)
        ensures
            r == (InstallTally { installed: 0, existing: 0, failed: 0 }),
    {
        InstallTally { installed: 0, existing: 0, failed: 0 }
    }

    /// Counts one outcome.
    pub fn record(&mut self, o: InstallOutcome)
        requires
            old(self).installed < usize::MAX,
            old(self).existing < usize::MAX,
            old(self).failed < usize::MAX,
        ensures
            *final(self) == match o {
                InstallOutcome::Installed => InstallTally { installed: (old(self).installed + 1) as usize, ..*old(self) },
                InstallOutcome::AlreadyInstalled => InstallTally {
                    existing: (old(self).existing + 1) as usize,
                    ..*old(self)
                },
                InstallOutcome::Failed => InstallTally { failed: (old(self).failed + 1) as usize, ..*old(self) },
            },
    {
        match o {
            InstallOutcome::Installed => self.installed = self.installed + 1,
            InstallOutcome::AlreadyInstalled => self.existing = self.existing + 1,
            InstallOutcome::Failed => self.failed = self.failed + 1,
        }
    }

    /// An installation of every plugin a pattern selects fails when any
    /// plugin failed.
    pub fn any_failed(&self) -> (r: bool)
        ensures
            r == (self.failed > 0),
    {
        self.failed > 0
    }
}

/// How installing plugins from the config file begins.
#[derive(Debug, Clone, Copy, PartialEq, Eq, Structural)]
pub enum ConfigInstallStart {
    /// The config file declares no plugin: nothing to do.
    NothingDeclared,
    /// `--locked` was given but the lockfile holds no plugin: the command fails.
    MissingLockfile,
    /// Install each declared plugin.
    Proceed,
}

/// How installing from the config file begins, given how many plugins it
/// declares, whether `--locked` was given and whether the lockfile is empty.
pub fn config_install_start(declared: usize, locked: bool, lockfile_empty: bool) -> (r: ConfigInstallStart)
    ensures
        r == (if declared == 0 {
            ConfigInstallStart::NothingDeclared
        } else if locked && lockfile_empty {
            ConfigInstallStart::MissingLockfile
        } else {
            ConfigInstallStart::Proceed
        }),
{
    if declared == 0 {
        ConfigInstallStart::NothingDeclared
    } else if locked && lockfile_empty {
        ConfigInstallStart::MissingLockfile
    } else {
        ConfigInstallStart::Proceed
    }
}

/// What a locked installation does with one declared plugin.
#[derive(Debug, Clone, Copy, PartialEq, Eq, Structural)]
pub enum LockedPlan {
    /// The plugin is not in the lockfile: it fails.
    NotInLockfile,
    /// The locked file is present: nothing to download.
    AlreadyInstalled,
    /// Download the locked reference.
    Download,
}

/// What a locked installation does with a plugin, given whether the lockfile
/// has it and whether its locked file is present.
pub fn locked_plan(in_lockfile: bool, file_present: bool) -> (r: LockedPlan)
    ensures
        r == (if !in_lockfile {
            LockedPlan::NotInLockfile
        } else if file_present {
            LockedPlan::AlreadyInstalled
        } else {
            LockedPlan::Download
        }),
{
    if !in_lockfile {
        LockedPlan::NotInLockfile
    } else if file_present {
        LockedPlan::AlreadyInstalled
    } else {
        LockedPlan::Download
    }
}

/// Where the installation of one plugin from a registry stands.
#[derive(Debug, Clone, Copy, PartialEq, Eq, Structural)]
pub enum InstallStage {
    /// Nothing done yet.
    Start,
    /// Waiting for the reference to resolve.
    Resolving,
    /// Waiting to learn whether the resolved file is present.
    CheckingFile,
    /// Waiting for the download.
    Downloading,
    /// Waiting for the lockfile entry to be recorded; the outcome is known.
    RecordingLock(InstallOutcome),
    /// Finished.
    Done(InstallOutcome),
}

/// What happened in the outside world.
#[derive(Debug, Clone, Copy, PartialEq, Eq, Structural)]
pub enum InstallEvent {
    /// The lockfile already records the plugin and its file is present.
    Cached,
    /// The plugin is not both recorded and present.
    NotCached,
    Resolved,
    ResolveFailed,
    FileExists,
    FileMissing,
    Downloaded,
    DownloadFailed,
    LockRecorded,
}

/// What to do next.
#[derive(Debug, Clone, Copy, PartialEq, Eq, Structural)]
pub enum InstallAction {
    Resolve,
    CheckFile,
    Download,
    RecordLock,
    Finish(InstallOutcome),
    /// The event does not apply at this stage: nothing to do.
    Ignore,
}

/// The next stage and action of one plugin's installation: a cached plugin
/// is already installed; otherwise it is resolved, a present file counts as
/// already installed, a missing one is downloaded; a resolved plugin has its
/// lockfile entry recorded before it finishes; a failed resolve or download
/// finishes as a failure without touching the lockfile.
pub open spec fn install_step_spec(stage: InstallStage, event: InstallEvent) -> (InstallStage, InstallAction) {
    match (stage, event) {
        (InstallStage::Start, InstallEvent::Cached) => (
            InstallStage::Done(InstallOutcome::AlreadyInstalled),
            InstallAction::Finish(InstallOutcome::AlreadyInstalled),
        ),
        (InstallStage::Start, InstallEvent::NotCached) => (InstallStage::Resolving, InstallAction::Resolve),
        (InstallStage::Resolving, InstallEvent::Resolved) => (InstallStage::CheckingFile, InstallAction::CheckFile),
        (InstallStage::Resolving, InstallEvent::ResolveFailed) => (
            InstallStage::Done(InstallOutcome::Failed),
            InstallAction::Finish(InstallOutcome::Failed),
        ),
        (InstallStage::CheckingFile, InstallEvent::FileExists) => (
            InstallStage::RecordingLock(InstallOutcome::AlreadyInstalled),
            InstallAction::RecordLock,
        ),
        (InstallStage::CheckingFile, InstallEvent::FileMissing) => (InstallStage::Downloading, InstallAction::Download),
        (InstallStage::Downloading, InstallEvent::Downloaded) => (
            InstallStage::RecordingLock(InstallOutcome::Installed),
            InstallAction::RecordLock,
        ),
        (InstallStage::Downloading, InstallEvent::DownloadFailed) => (
            InstallStage::Done(InstallOutcome::Failed),
            InstallAction::Finish(InstallOutcome::Failed),
        ),
        (InstallStage::RecordingLock(o), InstallEvent::LockRecorded) => (InstallStage::Done(o), InstallAction::Finish(o)),
        _ => (stage, InstallAction::Ignore),
    }
}

/// The next stage and action of one plugin's installation.
pub fn install_step(stage: InstallStage, event: InstallEvent) -> (r: (InstallStage, InstallAction))
    ensures
        r == install_step_spec(stage, event),
{
    match (stage, event) {
        (InstallStage::Start, InstallEvent::Cached) => (
            InstallStage::Done(InstallOutcome::AlreadyInstalled),
            InstallAction::Finish(InstallOutcome::AlreadyInstalled),
        ),
        (InstallStage::Start, InstallEvent::NotCached) => (InstallStage::Resolving, InstallAction::Resolve),
        (InstallStage::Resolving, InstallEvent::Resolved) => (InstallStage::CheckingFile, InstallAction::CheckFile),
        (InstallStage::Resolving, InstallEvent::ResolveFailed) => (
            InstallStage::Done(InstallOutcome::Failed),
            InstallAction::Finish(InstallOutcome::Failed),
        ),
        (InstallStage::CheckingFile, InstallEvent::FileExists) => (
            InstallStage::RecordingLock(InstallOutcome::AlreadyInstalled),
            InstallAction::RecordLock,
        ),
        (InstallStage::CheckingFile, InstallEvent::FileMissing) => (InstallStage::Downloading, InstallAction::Download),
        (InstallStage::Downloading, InstallEvent::Downloaded) => (
            InstallStage::RecordingLock(InstallOutcome::Installed),
            InstallAction::RecordLock,
        ),
        (InstallStage::Downloading, InstallEvent::DownloadFailed) => (
            InstallStage::Done(InstallOutcome::Failed),
            InstallAction::Finish(InstallOutcome::Failed),
        ),
        (InstallStage::RecordingLock(o), InstallEvent::LockRecorded) => (InstallStage::Done(o), InstallAction::Finish(o)),
        _ => (stage, InstallAction::Ignore),
    }
}

/// A finished installation stays finished, and it finishes exactly with the
/// outcome its last action reports.
pub proof fn law_install_done_is_final(o: InstallOutcome, e: InstallEvent)
    ensures
        install_step_spec(InstallStage::Done(o), e) == (InstallStage::Done(o), InstallAction::Ignore),
        forall|s: InstallStage|
            (#[trigger] install_step_spec(s, e)).1 matches InstallAction::Finish(o2) ==> install_step_spec(s, e).0
                == InstallStage::Done(o2),
{
}

/// A plugin the registry offers, with the versions it lists.
pub struct SearchEntry {
    pub reference: String,
    pub full_reference: String,
    pub versions: Vec<String>,
}

/// The positions of the plugins a pattern selects: every plugin for `*`,
/// otherwise those whose short or full reference, or one of whose versions
/// (alone or after the reference and a colon), the pattern matches.
pub fn select_for_pattern(pattern: &str, results: &Vec<SearchEntry>) -> (r: Vec<usize>)
    ensures
        pattern@ == "*"@ ==> r@ == Seq::new(results@.len(), |i: int| i as usize),
        pattern@ != "*"@ ==> (forall|i: int| 0 <= i < r@.len() ==> (#[trigger] r@[i]) < results@.len())
            && (forall|i: int, j: int| 0 <= i < j < r@.len() ==> r@[i] < r@[j]) && (forall|k: int|
            0 <= k < results@.len() ==> (r@.contains(k as usize) <==> plugin_matches_spec(
                pattern@,
                #[trigger] results@[k].reference@,
                results@[k].full_reference@,
                strings_view(results@[k].versions@),
            ))),
{
    let everything = str_eq(pattern, "*");
    let mut out: Vec<usize> = Vec::new();
    let mut i: usize = 0;
    while i < results.len()
        invariant
            everything == (pattern@ == "*"@),
            i <= results.len(),
            forall|j: int| 0 <= j < out@.len() ==> (#[trigger] out@[j]) < i,
            forall|a: int, b: int| 0 <= a < b < out@.len() ==> out@[a] < out@[b],
            everything ==> out@ == Seq::new(i as nat, |j: int| j as usize),
            !everything ==> forall|k: int| 0 <= k < i ==> (out@.contains(k as usize) <==> plugin_matches_spec(
                pattern@,
                #[trigger] results@[k].reference@,
                results@[k].full_reference@,
                strings_view(results@[k].versions@),
            )),
        decreases results.len() - i,
    {
        let ghost before = out@;
        let selected = if everything {
            true
        } else {
            let r = &results[i];
            let mut versions: Vec<&str> = Vec::new();
            let mut j: usize = 0;
            while j < r.versions.len()
                invariant
                    j <= r.versions@.len(),
                    versions@.len() == j,
                    forall|m: int| 0 <= m < j ==> (#[trigger] versions@[m])@ == r.versions@[m]@,
                decreases r.versions.len() - j,
            {
                versions.push(r.versions[j].as_str());
                j = j + 1;
            }
            assert(versions@.map_values(|v: &str| v@) =~= strings_view(r.versions@));
            wildcard_matches_plugin(pattern, r.reference.as_str(), r.full_reference.as_str(), versions.as_slice())
        };
        if selected {
            out.push(i);
        }
        proof {
            if everything {
                assert(out@ =~= Seq::new((i + 1) as nat, |j: int| j as usize));
            } else {
                assert forall|k: int| 0 <= k < i + 1 implies (out@.contains(k as usize) <==> plugin_matches_spec(
                    pattern@,
                    #[trigger] results@[k].reference@,
                    results@[k].full_reference@,
                    strings_view(results@[k].versions@),
                )) by {
                    if k < i {
                        if out@.contains(k as usize) {
                            let m = choose|m: int| 0 <= m < out@.len() && out@[m] == k as usize;
                            if m == before.len() {
                            } else {
                                assert(before[m] == k as usize);
                                assert(before.contains(k as usize));
                            }
                        }
                        if before.contains(k as usize) {
                            let m = choose|m: int| 0 <= m < before.len() && before[m] == k as usize;
                            assert(out@[m] == k as usize);
                        }
                    } else {
                        if selected {
                            assert(out@[before.len() as int] == i);
                        } else if out@.contains(k as usize) {
                            let m = choose|m: int| 0 <= m < out@.len() && out@[m] == k as usize;
                            assert(before[m] < i);
                        }
                    }
                }
            }
        }
        i = i + 1;
    }
    out
}

// ---------------------------------------------------------------------------
// The lockfile
// ---------------------------------------------------------------------------

/// The signature recorded for an installed plugin.
pub struct LockSignature {
    pub verified: bool,
    pub issuer: String,
    pub subject: String,
}

/// What the lockfile records about an installed plugin.
pub struct LockEntry {
    pub reference: String,
    pub version: String,
    pub digest: String,
    pub sdk_version: String,
    pub core_version: String,
    pub lib_version: String,
    pub platform: String,
    pub filename: String,
    pub file_hash: Option<String>,
    pub git_commit: Option<String>,
    pub build_timestamp: Option<String>,
    pub signature: Option<LockSignature>,
}

/// The recorded signatures agree.
pub open spec fn same_signature(a: Option<LockSignature>, b: Option<LockSignature>) -> bool {
    match (a, b) {
        (None, None) => true,
        (Some(x), Some(y)) => x.verified == y.verified && x.issuer@ == y.issuer@ && x.subject@ == y.subject@,
        _ => false,
    }
}

/// Two lockfile entries record the same thing.
pub open spec fn same_entry(a: LockEntry, b: LockEntry) -> bool {
    &&& a.reference@ == b.reference@
    &&& a.version@ == b.version@
    &&& a.digest@ == b.digest@
    &&& a.sdk_version@ == b.sdk_version@
    &&& a.core_version@ == b.core_version@
    &&& a.lib_version@ == b.lib_version@
    &&& a.platform@ == b.platform@
    &&& a.filename@ == b.filename@
    &&& opt_chars(a.file_hash) == opt_chars(b.file_hash)
    &&& opt_chars(a.git_commit) == opt_chars(b.git_commit)
    &&& opt_chars(a.build_timestamp) == opt_chars(b.build_timestamp)
    &&& same_signature(a.signature, b.signature)
}

/// Whether two optional texts agree.
fn opt_str_eq(a: &Option<String>, b: &Option<String>) -> (r: bool)
    ensures
        r == (opt_chars(*a) == opt_chars(*b)),
{
    match (a, b) {
        (None, None) => true,
        (Some(x), Some(y)) => str_eq(x.as_str(), y.as_str()),
        _ => false,
    }
}

/// Whether two lockfile entries record the same thing.
pub fn entries_agree(a: &LockEntry, b: &LockEntry) -> (r: bool)
    ensures
        r == same_entry(*a, *b),
{
    let sig = match (&a.signature, &b.signature) {
        (None, None) => true,
        (Some(x), Some(y)) => x.verified == y.verified && str_eq(x.issuer.as_str(), y.issuer.as_str()) && str_eq(
            x.subject.as_str(),
            y.subject.as_str(),
        ),
        _ => false,
    };
    str_eq(a.reference.as_str(), b.reference.as_str()) && str_eq(a.version.as_str(), b.version.as_str()) && str_eq(
        a.digest.as_str(),
        b.digest.as_str(),
    ) && str_eq(a.sdk_version.as_str(), b.sdk_version.as_str()) && str_eq(
        a.core_version.as_str(),
        b.core_version.as_str(),
    ) && str_eq(a.lib_version.as_str(), b.lib_version.as_str()) && str_eq(a.platform.as_str(), b.platform.as_str())
        && str_eq(a.filename.as_str(), b.filename.as_str()) && opt_str_eq(&a.file_hash, &b.file_hash) && opt_str_eq(
        &a.git_commit,
        &b.git_commit,
    ) && opt_str_eq(&a.build_timestamp, &b.build_timestamp) && sig
}

/// The lockfile is rewritten for a plugin only when its entry changes.
pub fn lock_needs_write(current: Option<&LockEntry>, new_entry: &LockEntry) -> (r: bool)
    ensures
        r == match current {
            Some(c) => !same_entry(*c, *new_entry),
            None => true,
        },
{
    match current {
        Some(c) => !entries_agree(c, new_entry),
        None => true,
    }
}

/// What a plugin binary reports about itself.
pub struct PluginMetadata {
    pub plugin_version: String,
    pub sdk_version: String,
    pub core_version: String,
    pub lib_version: String,
    pub target_triple: String,
    pub git_commit: String,
    pub build_timestamp: String,
}

/// A text, or nothing where it is empty.
pub open spec fn non_empty(s: Seq<char>) -> Option<Seq<char>> {
    if s.len() == 0 {
        None
    } else {
        Some(s)
    }
}

fn non_empty_text(s: &String) -> (r: Option<String>)
    ensures
        opt_chars(r) == non_empty(s@),
{
    if s.as_str().is_empty() {
        None
    } else {
        Some(owned(s.as_str()))
    }
}

/// The lockfile entry of a plugin installed from a `file://` or web URI: it
/// is keyed and referenced by the URI, has no digest and no signature, takes
/// its versions and platform from the binary's metadata, and records the
/// commit and build time only where the metadata has them.
pub fn uri_lock_entry(reference: &str, meta: &PluginMetadata, filename: &str, file_hash: Option<String>) -> (r:
    LockEntry)
    ensures
        r.reference@ == reference@,
        r.version@ == meta.plugin_version@,
        r.digest@ == Seq::<char>::empty(),
        r.sdk_version@ == meta.sdk_version@,
        r.core_version@ == meta.core_version@,
        r.lib_version@ == meta.lib_version@,
        r.platform@ == meta.target_triple@,
        r.filename@ == filename@,
        opt_chars(r.file_hash) == opt_chars(file_hash),
        opt_chars(r.git_commit) == non_empty(meta.git_commit@),
        opt_chars(r.build_timestamp) == non_empty(meta.build_timestamp@),
        r.signature is None,
{
    LockEntry {
        reference: owned(reference),
        version: owned(meta.plugin_version.as_str()),
        digest: String::new(),
        sdk_version: owned(meta.sdk_version.as_str()),
        core_version: owned(meta.core_version.as_str()),
        lib_version: owned(meta.lib_version.as_str()),
        platform: owned(meta.target_triple.as_str()),
        filename: owned(filename),
        file_hash,
        git_commit: non_empty_text(&meta.git_commit),
        build_timestamp: non_empty_text(&meta.build_timestamp),
        signature: None,
    }
}

// ---------------------------------------------------------------------------
// Upgrading
// ---------------------------------------------------------------------------

/// Why an upgrade request is refused before anything is checked.
#[derive(Debug, Clone, Copy, PartialEq, Eq, Structural)]
pub enum UpgradeRefusal {
    /// Neither a reference nor `--all` was given.
    NoTarget,
    /// No lockfile, or one without plugins.
    NothingInstalled,
}

/// Whether an upgrade may proceed.
pub fn upgrade_precheck(has_reference: bool, all: bool, lockfile_has_plugins: bool) -> (r: Result<(), UpgradeRefusal>)
    ensures
        r == (if !has_reference && !all {
            Err::<(), UpgradeRefusal>(UpgradeRefusal::NoTarget)
        } else if !lockfile_has_plugins {
            Err(UpgradeRefusal::NothingInstalled)
        } else {
            Ok(())
        }),
{
    if !has_reference && !all {
        Err(UpgradeRefusal::NoTarget)
    } else if !lockfile_has_plugins {
        Err(UpgradeRefusal::NothingInstalled)
    } else {
        Ok(())
    }
}

/// `t` occurs in `s` at position `i`.
pub open spec fn occurs_at(s: Seq<char>, t: Seq<char>, i: int) -> bool {
    0 <= i && i + t.len() <= s.len() && s.subrange(i, i + t.len()) == t
}

/// `t` occurs in `s`.
pub open spec fn contains_text(s: Seq<char>, t: Seq<char>) -> bool {
    exists|i: int| occurs_at(s, t, i)
}

/// Whether `t` occurs in `s`.
pub fn contains_str(s: &str, t: &str) -> (r: bool)
    ensures
        r == contains_text(s@, t@),
{
    let a = chars_of(s);
    let b = chars_of(t);
    let n = a.len();
    let m = b.len();
    if m > n {
        assert(!exists|i: int| occurs_at(s@, t@, i));
        return false;
    }
    let mut i: usize = 0;
    while i <= n - m
        invariant
            a@ == s@,
            b@ == t@,
            n == a@.len(),
            m == b@.len(),
            m <= n,
            i <= n - m + 1,
            forall|k: int| 0 <= k < i ==> !occurs_at(s@, t@, k),
        decreases n - m + 1 - i,
    {
        let mut j: usize = 0;
        let mut same = true;
        while j < m
            invariant
                a@ == s@,
                b@ == t@,
                n == a@.len(),
                m == b@.len(),
                i + m <= n,
                j <= m,
                same == forall|q: int| 0 <= q < j ==> a@[i + q] == b@[q],
            decreases m - j,
        {
            if a[i + j] != b[j] {
                same = false;
            }
            j = j + 1;
        }
        if same {
            assert(s@.subrange(i as int, i + m) =~= t@);
            assert(occurs_at(s@, t@, i as int));
            return true;
        }
        proof {
            assert(!occurs_at(s@, t@, i as int)) by {
                if occurs_at(s@, t@, i as int) {
                    assert forall|q: int| 0 <= q < m implies a@[i + q] == b@[q] by {
                        assert(s@.subrange(i as int, i + m)[q] == t@[q]);
                    }
                }
            }
        }
        i = i + 1;
    }
    assert(!exists|k: int| occurs_at(s@, t@, k)) by {
        if exists|k: int| occurs_at(s@, t@, k) {
            let k = choose|k: int| occurs_at(s@, t@, k);
            assert(k < i);
        }
    }
    false
}

/// The plugins an upgrade checks, by position in the lockfile: every one for
/// `--all`; otherwise the one whose key is the reference, or else every one
/// whose key contains it; `None` when nothing matches.
pub open spec fn upgrade_targets_spec(keys: Seq<Seq<char>>, reference: Seq<char>, all: bool) -> Option<Seq<int>> {
    if all {
        Some(Seq::new(keys.len(), |i: int| i))
    } else if keys.contains(reference) {
        Some(seq![keys.index_of(reference)])
    } else {
        let matching = matching_keys(keys, reference, keys.len() as int);
        if matching.len() == 0 {
            None
        } else {
            Some(matching)
        }
    }
}

/// The positions, among the first `n` keys, of those that contain `reference`.
pub open spec fn matching_keys(keys: Seq<Seq<char>>, reference: Seq<char>, n: int) -> Seq<int>
    decreases n,
{
    if n <= 0 || n > keys.len() {
        Seq::empty()
    } else {
        matching_keys(keys, reference, n - 1) + if contains_text(keys[n - 1], reference) {
            seq![n - 1]
        } else {
            Seq::empty()
        }
    }
}

/// The plugins an upgrade checks (see `upgrade_targets_spec`); the lockfile's
/// keys are distinct.
pub fn select_upgrade_targets(keys: &Vec<String>, reference: &str, all: bool) -> (r: Option<Vec<usize>>)
    requires
        forall|i: int, j: int| 0 <= i < j < keys@.len() ==> keys@[i]@ != keys@[j]@,
    ensures
        match upgrade_targets_spec(strings_view(keys@), reference@, all) {
            Some(t) => r matches Some(v) && v@.len() == t.len() && forall|i: int| 0 <= i < t.len() ==> v@[i] as int == #[trigger] t[i],
            None => r is None,
        },
{
    let ghost ks = strings_view(keys@);
    let n = keys.len();
    let mut out: Vec<usize> = Vec::new();
    if all {
        let mut i: usize = 0;
        while i < n
            invariant
                n == keys@.len(),
                i <= n,
                out@.len() == i,
                forall|j: int| 0 <= j < i ==> out@[j] == j,
            decreases n - i,
        {
            out.push(i);
            i = i + 1;
        }
        return Some(out);
    }
    let mut i: usize = 0;
    while i < n
        invariant
            n == keys@.len(),
            ks == strings_view(keys@),
            forall|a: int, b: int| 0 <= a < b < keys@.len() ==> keys@[a]@ != keys@[b]@,
            out@.len() == 0,
            !all,
            i <= n,
            forall|j: int| 0 <= j < i ==> ks[j] != reference@,
        decreases n - i,
    {
        if str_eq(keys[i].as_str(), reference) {
            proof {
                assert(ks[i as int] == reference@);
                assert(ks.contains(reference@));
                let p = ks.index_of(reference@);
                assert(ks[p] == reference@);
                assert(p == i as int) by {
                    if p != i as int {
                        assert(keys@[p]@ == keys@[i as int]@);
                        if p < i {
                        } else {
                        }
                    }
                }
            }
            out.push(i);
            return Some(out);
        }
        i = i + 1;
    }
    assert(!ks.contains(reference@));
    let mut k: usize = 0;
    assert(out@.map_values(|x: usize| x as int) =~= matching_keys(ks, reference@, 0));
    while k < n
        invariant
            n == keys@.len(),
            ks == strings_view(keys@),
            ks.len() == n,
            !all,
            !ks.contains(reference@),
            k <= n,
            out@.map_values(|x: usize| x as int) == matching_keys(ks, reference@, k as int),
        decreases n - k,
    {
        assert(ks[k as int] == keys@[k as int]@);
        if contains_str(keys[k].as_str(), reference) {
            out.push(k);
        }
        assert(out@.map_values(|x: usize| x as int) =~= matching_keys(ks, reference@, k + 1));
        k = k + 1;
    }
    if out.len() == 0 {
        None
    } else {
        Some(out)
    }
}

/// Whether a lockfile key names a plugin that was not installed from a
/// registry (`file://`, `http://` or `https://`), which upgrades skip.
pub fn is_non_oci(key: &str) -> (r: bool)
    ensures
        r == (starts_with(key@, "file://"@) || starts_with(key@, "http://"@) || starts_with(key@, "https://"@)),
{
    has_prefix(key, "file://") || has_prefix(key, "http://") || has_prefix(key, "https://")
}

/// The last position of `c` in `s`.
pub open spec fn last_pos(s: Seq<char>, c: char) -> Option<int>
    decreases s.len(),
{
    if s.len() == 0 {
        None
    } else if s.last() == c {
        Some(s.len() - 1)
    } else {
        last_pos(s.drop_last(), c)
    }
}

/// The first position, at or after `from`, of `c` in `s`.
pub open spec fn first_pos_from(s: Seq<char>, c: char, from: int) -> Option<int>
    decreases s.len() - from,
{
    if from < 0 || from >= s.len() {
        None
    } else if s[from] == c {
        Some(from)
    } else {
        first_pos_from(s, c, from + 1)
    }
}

/// An OCI reference without its tag or digest: everything before the last
/// `@`; else, when it has a `/`, everything before the first `:` after the
/// last `/` (a port before it stays); else everything before the first `:`.
pub open spec fn base_reference_spec(s: Seq<char>) -> Seq<char> {
    match last_pos(s, '@') {
        Some(a) => s.subrange(0, a),
        None => match last_pos(s, '/') {
            Some(p) => match first_pos_from(s, ':', p) {
                Some(q) => s.subrange(0, q),
                None => s,
            },
            None => match first_pos_from(s, ':', 0) {
                Some(q) => s.subrange(0, q),
                None => s,
            },
        },
    }
}

/// The last position of `c` in `t`.
fn find_last(t: &Vec<char>, c: char) -> (r: Option<usize>)
    ensures
        match r {
            Some(i) => last_pos(t@, c) == Some(i as int) && i < t@.len(),
            None => last_pos(t@, c) is None,
        },
{
    let mut n = t.len();
    assert(t@.subrange(0, n as int) =~= t@);
    while n > 0
        invariant
            n <= t@.len(),
            last_pos(t@, c) == last_pos(t@.subrange(0, n as int), c),
        decreases n,
    {
        let ghost pre = t@.subrange(0, n as int);
        assert(pre.drop_last() =~= t@.subrange(0, n - 1));
        if t[n - 1] == c {
            return Some(n - 1);
        }
        n = n - 1;
    }
    None
}

/// The first position, at or after `from`, of `c` in `t`.
fn find_from(t: &Vec<char>, c: char, from: usize) -> (r: Option<usize>)
    ensures
        match r {
            Some(i) => first_pos_from(t@, c, from as int) == Some(i as int) && i < t@.len(),
            None => first_pos_from(t@, c, from as int) is None,
        },
{
    let mut i = from;
    while i < t.len()
        invariant
            from <= i,
            first_pos_from(t@, c, from as int) == first_pos_from(t@, c, i as int),
        decreases t.len() - i,
    {
        if t[i] == c {
            return Some(i);
        }
        i = i + 1;
    }
    None
}

/// A reference without its tag or digest (see `base_reference_spec`).
pub fn base_reference(key: &str) -> (r: String)
    ensures
        r@ == base_reference_spec(key@),
{
    let t = chars_of(key);
    let end = match find_last(&t, '@') {
        Some(a) => a,
        None => match find_last(&t, '/') {
            Some(p) => match find_from(&t, ':', p) {
                Some(q) => q,
                None => t.len(),
            },
            None => match find_from(&t, ':', 0) {
                Some(q) => q,
                None => t.len(),
            },
        },
    };
    let mut out: Vec<char> = Vec::new();
    let mut i: usize = 0;
    while i < end
        invariant
            end <= t@.len(),
            i <= end,
            out@ == t@.subrange(0, i as int),
        decreases end - i,
    {
        out.push(t[i]);
        i = i + 1;
        assert(out@ =~= t@.subrange(0, i as int));
    }
    assert(t@.subrange(0, t@.len() as int) =~= t@);
    crate::text::string_of(&out)
}

/// What an upgrade does with a plugin once its reference resolved.
#[derive(Debug, Clone, Copy, PartialEq, Eq, Structural)]
pub enum UpgradeDecision {
    /// The resolved digest is the installed one.
    UpToDate,
    /// A newer build is available and is downloaded.
    Download,
    /// A newer build is available; a dry run only reports it.
    Available,
}

/// What an upgrade does with a plugin: nothing when the digests agree,
/// otherwise a download, or only a report in a dry run.
pub fn upgrade_decision(current_digest: &str, resolved_digest: &str, dry_run: bool) -> (r: UpgradeDecision)
    ensures
        r == (if resolved_digest@ == current_digest@ {
            UpgradeDecision::UpToDate
        } else if !dry_run {
            UpgradeDecision::Download
        } else {
            UpgradeDecision::Available
        }),
{
    if str_eq(resolved_digest, current_digest) {
        UpgradeDecision::UpToDate
    } else if !dry_run {
        UpgradeDecision::Download
    } else {
        UpgradeDecision::Available
    }
}

/// How the check of one plugin during an upgrade ended.
#[derive(Debug, Clone, Copy, PartialEq, Eq, Structural)]
pub enum UpgradeOutcome {
    Upgraded,
    UpToDate,
    Skipped,
    Failed,
}

/// The outcomes of an upgrade run, counted.
#[derive(Debug, Clone, Copy, PartialEq, Eq, Structural)]
pub struct UpgradeTally {
    pub upgraded: usize,
    pub up_to_date: usize,
    pub skipped: usize,
    pub failed: usize,
}

impl UpgradeTally {
    /// No outcome yet.
    pub fn new() -> (r: UpgradeTally)
        ensures
            r == (UpgradeTally { upgraded: 0, up_to_date: 0, skipped: 0, failed: 0 }),
    {
        UpgradeTally { upgraded: 0, up_to_date: 0, skipped: 0, failed: 0 }
    }

    /// Counts one outcome.
    pub fn record(&mut self, o: UpgradeOutcome)
        requires
            old(self).upgraded < usize::MAX,
            old(self).up_to_date < usize::MAX,
            old(self).skipped < usize::MAX,
            old(self).failed < usize::MAX,
        ensures
            *final(self) == match o {
                UpgradeOutcome::Upgraded => UpgradeTally { upgraded: (old(self).upgraded + 1) as usize, ..*old(self) },
                UpgradeOutcome::UpToDate => UpgradeTally {
                    up_to_date: (old(self).up_to_date + 1) as usize,
                    ..*old(self)
                },
                UpgradeOutcome::Skipped => UpgradeTally { skipped: (old(self).skipped + 1) as usize, ..*old(self) },
                UpgradeOutcome::Failed => UpgradeTally { failed: (old(self).failed + 1) as usize, ..*old(self) },
            },
    {
        match o {
            UpgradeOutcome::Upgraded => self.upgraded = self.upgraded + 1,
            UpgradeOutcome::UpToDate => self.up_to_date = self.up_to_date + 1,
            UpgradeOutcome::Skipped => self.skipped = self.skipped + 1,
            UpgradeOutcome::Failed => self.failed = self.failed + 1,
        }
    }

    /// The lockfile is rewritten after an upgrade that is not a dry run and
    /// upgraded something.
    pub fn should_write_lockfile(&self, dry_run: bool) -> (r: bool)
        ensures
            r == (!dry_run && self.upgraded > 0),
    {
        !dry_run && self.upgraded > 0
    }
}

// ---------------------------------------------------------------------------
// Listing
// ---------------------------------------------------------------------------

/// `s` ends with `p`.
pub open spec fn ends_with(s: Seq<char>, p: Seq<char>) -> bool {
    p.len() <= s.len() && s.subrange(s.len() - p.len(), s.len() as int) == p
}

/// Whether `s` ends with `p`.
pub fn has_suffix(s: &str, p: &str) -> (r: bool)
    ensures
        r == ends_with(s@, p@),
{
    let n = s.unicode_len();
    let m = p.unicode_len();
    if m > n {
        return false;
    }
    let mut i: usize = 0;
    while i < m
        invariant
            n == s@.len(),
            m == p@.len(),
            m <= n,
            i <= m,
            forall|j: int| 0 <= j < i ==> s@[n - m + j] == p@[j],
        decreases m - i,
    {
        if s.get_char(n - m + i) != p.get_char(i) {
            assert(s@.subrange(n - m, n as int)[i as int] != p@[i as int]);
            return false;
        }
        i = i + 1;
    }
    assert(s@.subrange(n - m, n as int) =~= p@);
    true
}

/// Whether a file in the plugins directory is a plugin library (`.so`,
/// `.dll` or `.dylib`).
pub fn is_plugin_file(name: &str) -> (r: bool)
    ensures
        r == (ends_with(name@, ".so"@) || ends_with(name@, ".dll"@) || ends_with(name@, ".dylib"@)),
{
    has_suffix(name, ".so") || has_suffix(name, ".dll") || has_suffix(name, ".dylib")
}

/// The lockfile entry that describes a plugin file: the last entry recorded
/// with that file name, by position.
pub fn entry_for_file(filenames: &Vec<String>, name: &str) -> (r: Option<usize>)
    ensures
        match r {
            Some(i) => i < filenames@.len() && filenames@[i as int]@ == name@ && forall|j: int|
                i < j < filenames@.len() ==> filenames@[j]@ != name@,
            None => forall|j: int| 0 <= j < filenames@.len() ==> filenames@[j]@ != name@,
        },
{
    let mut n = filenames.len();
    while n > 0
        invariant
            n <= filenames@.len(),
            forall|j: int| n <= j < filenames@.len() ==> filenames@[j]@ != name@,
        decreases n,
    {
        if str_eq(filenames[n - 1].as_str(), name) {
            return Some(n - 1);
        }
        n = n - 1;
    }
    None
}


/// A failed resolve or a failed download ends the plugin's installation as
/// failed, reported as failed; a failure never ends it as installed or as
/// already installed; and only a failure ends it as failed.
pub proof fn law_install_failures_fail(stage: InstallStage, event: InstallEvent)
    ensures
        stage == InstallStage::Resolving && event == InstallEvent::ResolveFailed ==> install_step_spec(stage, event) == (
            InstallStage::Done(InstallOutcome::Failed),
            InstallAction::Finish(InstallOutcome::Failed),
        ),
        stage == InstallStage::Downloading && event == InstallEvent::DownloadFailed ==> install_step_spec(stage, event)
            == (InstallStage::Done(InstallOutcome::Failed), InstallAction::Finish(InstallOutcome::Failed)),
        (event == InstallEvent::ResolveFailed || event == InstallEvent::DownloadFailed) ==> (install_step_spec(
            stage,
            event,
        ).1 == InstallAction::Finish(InstallOutcome::Failed) || install_step_spec(stage, event) == (
            stage,
            InstallAction::Ignore,
        )),
        stage != InstallStage::RecordingLock(InstallOutcome::Failed) ==> install_step_spec(stage, event).0
            != InstallStage::RecordingLock(InstallOutcome::Failed),
        stage != InstallStage::RecordingLock(InstallOutcome::Failed) && install_step_spec(stage, event).1
            == InstallAction::Finish(InstallOutcome::Failed) ==> (event == InstallEvent::ResolveFailed || event
            == InstallEvent::DownloadFailed),
        !(stage is Done) && stage != InstallStage::RecordingLock(InstallOutcome::Failed) && install_step_spec(
            stage,
            event,
        ).0 == InstallStage::Done(InstallOutcome::Failed) ==> (event == InstallEvent::ResolveFailed || event
            == InstallEvent::DownloadFailed),
{
}

/// `reference` occurs somewhere in `key`.
pub open spec fn has_substring(key: Seq<char>, reference: Seq<char>) -> bool {
    exists|j: int| 0 <= j && j + reference.len() <= key.len() && #[trigger] key.subrange(j, j + reference.len()) == reference
}

/// The matching positions among the first `n` keys, in order.
proof fn lemma_matching_keys(keys: Seq<Seq<char>>, reference: Seq<char>, n: int)
    requires
        0 <= n <= keys.len(),
    ensures
        forall|a: int| 0 <= a < matching_keys(keys, reference, n).len() ==> 0 <= #[trigger] matching_keys(keys, reference, n)[a] < n,
        forall|a: int, b: int| 0 <= a < b < matching_keys(keys, reference, n).len() ==> matching_keys(keys, reference, n)[a]
            < matching_keys(keys, reference, n)[b],
        forall|i: int| 0 <= i < n ==> (matching_keys(keys, reference, n).contains(i) <==> has_substring(#[trigger] keys[i], reference)),
    decreases n,
{
    if n > 0 {
        lemma_matching_keys(keys, reference, n - 1);
        let prev = matching_keys(keys, reference, n - 1);
        let cur = matching_keys(keys, reference, n);
        assert(contains_text(keys[n - 1], reference) <==> has_substring(keys[n - 1], reference)) by {
            if contains_text(keys[n - 1], reference) {
                let j = choose|j: int| #[trigger] occurs_at(keys[n - 1], reference, j);
                assert(keys[n - 1].subrange(j, j + reference.len()) == reference);
            }
            if has_substring(keys[n - 1], reference) {
                let j = choose|j: int| 0 <= j && j + reference.len() <= keys[n - 1].len() && #[trigger] keys[n - 1].subrange(j, j + reference.len()) == reference;
                assert(occurs_at(keys[n - 1], reference, j));
            }
        }
        assert forall|i: int| 0 <= i < n implies (cur.contains(i) <==> has_substring(#[trigger] keys[i], reference)) by {
            if i < n - 1 {
                if prev.contains(i) {
                    let a = choose|a: int| 0 <= a < prev.len() && prev[a] == i;
                    assert(cur[a] == i);
                }
                if cur.contains(i) {
                    let a = choose|a: int| 0 <= a < cur.len() && cur[a] == i;
                    if a < prev.len() {
                        assert(cur[a] == prev[a]);
                    } else {
                        assert(cur[a] == n - 1);
                    }
                }
            } else {
                if cur.contains(i) {
                    let a = choose|a: int| 0 <= a < cur.len() && cur[a] == i;
                    if a < prev.len() {
                        assert(cur[a] == prev[a]);
                    }
                }
                if has_substring(keys[i], reference) {
                    assert(cur[prev.len() as int] == n - 1);
                }
            }
        }
        assert forall|a: int| 0 <= a < cur.len() implies 0 <= #[trigger] cur[a] < n by {
            if a < prev.len() {
                assert(cur[a] == prev[a]);
            }
        }
        assert forall|a: int, b: int| 0 <= a < b < cur.len() implies cur[a] < cur[b] by {
            if b < prev.len() {
                assert(cur[a] == prev[a] && cur[b] == prev[b]);
            } else if a < prev.len() {
                assert(cur[a] == prev[a]);
            }
        }
    }
}

/// Without `--all`, when no key is the reference itself, an upgrade checks
/// exactly the plugins whose key contains the reference anywhere, in
/// lockfile order; when no key contains it, nothing is found.
pub proof fn law_upgrade_targets_by_substring(keys: Seq<Seq<char>>, reference: Seq<char>)
    requires
        !keys.contains(reference),
    ensures
        upgrade_targets_spec(keys, reference, false) is None <==> forall|i: int| 0 <= i < keys.len() ==> !has_substring(#[trigger] keys[i], reference),
        upgrade_targets_spec(keys, reference, false) matches Some(t) ==> {
            &&& forall|i: int| 0 <= i < keys.len() ==> (t.contains(i) <==> has_substring(#[trigger] keys[i], reference))
            &&& forall|a: int| 0 <= a < t.len() ==> 0 <= #[trigger] t[a] < keys.len()
            &&& forall|a: int, b: int| 0 <= a < b < t.len() ==> t[a] < t[b]
        },
{
    lemma_matching_keys(keys, reference, keys.len() as int);
    let m = matching_keys(keys, reference, keys.len() as int);
    if m.len() == 0 {
        assert forall|i: int| 0 <= i < keys.len() implies !has_substring(#[trigger] keys[i], reference) by {
            assert(!m.contains(i));
        }
    } else {
        let i = m[0];
        assert(m.contains(i));
        assert(has_substring(keys[i], reference));
    }
}

} // verus!
