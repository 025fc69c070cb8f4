//! Admission rules for unattended scheduled work: the launcher and model
//! provider it may use, the workspace it may run in, and the native
//! permissions the resumed thread must report before anything runs. An
//! ignored override must never grant execution. The JSON the app server
//! exchanges is read into the plain values below by the caller.
use vstd::prelude::*;
use crate::frontend::named_segments;
use crate::text::{
    copy_texts, lemma_seq_lt_irreflexive, lemma_seq_lt_total, lemma_seq_lt_transitive, seq_lt, slash_segments,
    split_slash_segments, str_eq, str_lt, text_views, trim, trim_str,
};

verus! {

/// Features switched off for scheduled work.
pub const DISABLED_FEATURES: [&'static str; 12] = [
    "apps",
    "plugins",
    "remote_plugin",
    "browser_use",
    "browser_use_external",
    "browser_use_full_cdp_access",
    "in_app_browser",
    "computer_use",
    "multi_agent",
    "multi_agent_v2",
    "skill_mcp_dependency_install",
    "request_permissions_tool",
];

/// Why scheduled work is refused.
#[derive(Clone, Copy, Debug, PartialEq, Eq, Structural)]
pub enum AdmissionError {
    UnapprovedLauncher,
    AlternateProfile,
    MissingWorkspace,
    UnscopedWorkspace,
    CannotVerifyConfig,
    LifecycleHooks,
    CannotResolveMcp,
    RestrictedPermissions,
    UnapprovedProvider,
    MissingThread,
    CannotVerifyTools,
    ExternalTools,
    TooManyBuildRoots,
    ScopeOverlap,
    BuildRootInvalid,
    BuildRootInAuthority,
}

impl AdmissionError {
    /// The message the refusal carries.
    pub fn message(&self) -> (r: &'static str)
        ensures
            r@ == match *self {
                AdmissionError::UnapprovedLauncher => "Scheduled goals must use the service-approved local Codex launcher"@,
                AdmissionError::AlternateProfile => "Scheduled work cannot apply an unverified alternate Codex config profile"@,
                AdmissionError::MissingWorkspace => "Scheduled workspace is missing"@,
                AdmissionError::UnscopedWorkspace => "Scheduled work needs a scoped local workspace"@,
                AdmissionError::CannotVerifyConfig => "Cannot verify scheduled configuration"@,
                AdmissionError::LifecycleHooks => "Scheduled execution does not support external lifecycle hooks"@,
                AdmissionError::CannotResolveMcp => "Cannot resolve scheduled MCP inventory"@,
                AdmissionError::RestrictedPermissions => "Native thread did not apply restricted scheduled permissions"@,
                AdmissionError::UnapprovedProvider => "Scheduled goal uses a model provider outside the supervised allowance"@,
                AdmissionError::MissingThread => "Missing scheduled native thread"@,
                AdmissionError::CannotVerifyTools => "Cannot verify scheduled tool inventory"@,
                AdmissionError::ExternalTools => "Scheduled goals cannot use external MCP tools"@,
                AdmissionError::TooManyBuildRoots => "At most eight scheduled build directories are supported"@,
                AdmissionError::ScopeOverlap => "Scheduled workspace overlaps execution authority or Codex state"@,
                AdmissionError::BuildRootInvalid => "Scheduled build directories must exist and be absolute"@,
                AdmissionError::BuildRootInAuthority => "Scheduled build directory overlaps execution authority"@,
            },
    {
        match self {
            AdmissionError::UnapprovedLauncher => "Scheduled goals must use the service-approved local Codex launcher",
            AdmissionError::AlternateProfile => "Scheduled work cannot apply an unverified alternate Codex config profile",
            AdmissionError::MissingWorkspace => "Scheduled workspace is missing",
            AdmissionError::UnscopedWorkspace => "Scheduled work needs a scoped local workspace",
            AdmissionError::CannotVerifyConfig => "Cannot verify scheduled configuration",
            AdmissionError::LifecycleHooks => "Scheduled execution does not support external lifecycle hooks",
            AdmissionError::CannotResolveMcp => "Cannot resolve scheduled MCP inventory",
            AdmissionError::RestrictedPermissions => "Native thread did not apply restricted scheduled permissions",
            AdmissionError::UnapprovedProvider => "Scheduled goal uses a model provider outside the supervised allowance",
            AdmissionError::MissingThread => "Missing scheduled native thread",
            AdmissionError::CannotVerifyTools => "Cannot verify scheduled tool inventory",
            AdmissionError::ExternalTools => "Scheduled goals cannot use external MCP tools",
            AdmissionError::TooManyBuildRoots => "At most eight scheduled build directories are supported",
            AdmissionError::ScopeOverlap => "Scheduled workspace overlaps execution authority or Codex state",
            AdmissionError::BuildRootInvalid => "Scheduled build directories must exist and be absolute",
            AdmissionError::BuildRootInAuthority => "Scheduled build directory overlaps execution authority",
        }
    }
}

/// A profile may only name the approved launcher command, compared
/// without surrounding whitespace; no profile keeps the approved one.
pub fn verify_launcher(profile: Option<&str>, approved: &str) -> (r: Result<(), AdmissionError>)
    ensures
        r is Ok <==> match profile {
            Some(c) => trim(c@) == trim(approved@),
            None => true,
        },
        r is Err ==> r == Err::<(), AdmissionError>(AdmissionError::UnapprovedLauncher),
{
    match profile {
        Some(command) => {
            if !str_eq(trim_str(command), trim_str(approved)) {
                return Err(AdmissionError::UnapprovedLauncher);
            }
        },
        None => {},
    }
    Ok(())
}

/// The resumed thread must report the approved model provider, and one
/// must be approved. `model_provider` is the reported one where it is
/// text.
pub fn verify_provider(model_provider: Option<&str>, approved: &str) -> (r: Result<(), AdmissionError>)
    ensures
        r is Ok <==> (approved@.len() > 0 && match model_provider {
            Some(p) => p@ == approved@,
            None => false,
        }),
        r is Err ==> r == Err::<(), AdmissionError>(AdmissionError::UnapprovedProvider),
{
    let ok = match model_provider {
        Some(p) => approved.unicode_len() > 0 && str_eq(p, approved),
        None => false,
    };
    if ok {
        Ok(())
    } else {
        Err(AdmissionError::UnapprovedProvider)
    }
}

/// A workspace path is absolute and not the root directory.
pub open spec fn scoped_workspace(cwd: Seq<char>) -> bool {
    cwd.len() > 0 && cwd[0] == '/' && cwd != "/"@
}

/// The checks on a resume request before anything is read: no alternate
/// config profile, and a workspace that is absolute and not `/`. On success,
/// the workspace.
pub fn check_resume_request(has_profile_override: bool, cwd: Option<&str>) -> (r: Result<
    String,
    AdmissionError,
>)
    ensures
        has_profile_override ==> r == Err::<String, AdmissionError>(AdmissionError::AlternateProfile),
        !has_profile_override && cwd is None ==> r == Err::<String, AdmissionError>(
            AdmissionError::MissingWorkspace,
        ),
        !has_profile_override ==> match cwd {
            Some(c) => if scoped_workspace(c@) {
                r is Ok && r->Ok_0@ == c@
            } else {
                r == Err::<String, AdmissionError>(AdmissionError::UnscopedWorkspace)
            },
            None => true,
        },
{
    if has_profile_override {
        return Err(AdmissionError::AlternateProfile);
    }
    match cwd {
        None => Err(AdmissionError::MissingWorkspace),
        Some(c) => {
            if c.unicode_len() > 0 && c.get_char(0) == '/' && !str_eq(c, "/") {
                Ok(String::from_str(c))
            } else {
                Err(AdmissionError::UnscopedWorkspace)
            }
        },
    }
}

/// What the resolved configuration holds under `hooks`.
#[derive(Clone, Copy, Debug, PartialEq, Eq, Structural)]
pub enum HooksValue {
    Absent,
    Null,
    EmptyObject,
    Other,
}

/// The configuration the app server resolved for the workspace, as far as
/// admission goes.
pub struct EffectiveConfig {
    pub hooks: HooksValue,
    /// The names of the configured MCP servers, where `mcp_servers` is an
    /// object.
    pub mcp_servers: Option<Vec<String>>,
}

/// Checks the resolved configuration (`None` where it is not an object):
/// no lifecycle hooks, and a readable MCP server inventory, whose names are
/// returned (each is disabled for the run).
pub fn check_effective_config(config: Option<&EffectiveConfig>) -> (r: Result<Vec<String>, AdmissionError>)
    ensures
        match config {
            None => r == Err::<Vec<String>, AdmissionError>(AdmissionError::CannotVerifyConfig),
            Some(c) => if c.hooks == HooksValue::Other {
                r == Err::<Vec<String>, AdmissionError>(AdmissionError::LifecycleHooks)
            } else {
                match &c.mcp_servers {
                    None => r == Err::<Vec<String>, AdmissionError>(AdmissionError::CannotResolveMcp),
                    Some(names) => r is Ok && r->Ok_0@ == names@,
                }
            },
        },
{
    match config {
        None => Err(AdmissionError::CannotVerifyConfig),
        Some(c) => {
            if c.hooks == HooksValue::Other {
                return Err(AdmissionError::LifecycleHooks);
            }
            match &c.mcp_servers {
                None => Err(AdmissionError::CannotResolveMcp),
                Some(names) => Ok(names.clone()),
            }
        },
    }
}

/// `s` with every `-` replaced by `_`.
pub open spec fn dashes_to_underscores(s: Seq<char>) -> Seq<char> {
    s.map_values(|c: char| if c == '-' {
        '_'
    } else {
        c
    })
}

/// The permission profile of a scheduled run: `vk_capacity_` and the
/// permission's id with underscores for dashes.
pub fn capacity_profile_name(lease_id: &str) -> (r: String)
    ensures
        r@ == "vk_capacity_"@ + dashes_to_underscores(lease_id@),
{
    let lease_id_cs = crate::text::chars_of(lease_id);
    let n = lease_id_cs.len();
    let mut out = "vk_capacity_".to_string();
    let mut i: usize = 0;
    proof {
        reveal_strlit("vk_capacity_");
    }
    while i < n
        invariant
            lease_id_cs@ == lease_id@,
            n == lease_id@.len(),
            i <= n,
            out@ == "vk_capacity_"@ + dashes_to_underscores(lease_id@.subrange(0, i as int)),
        decreases n - i,
    {
        let c = lease_id_cs[i];
        let d = if c == '-' {
            '_'
        } else {
            c
        };
        crate::text::push_char(&mut out, d);
        proof {
            assert(dashes_to_underscores(lease_id@.subrange(0, i + 1)) =~= dashes_to_underscores(
                lease_id@.subrange(0, i as int),
            ).push(d));
        }
        i = i + 1;
    }
    proof {
        assert(lease_id@.subrange(0, n as int) =~= lease_id@);
    }
    out
}

/// What the resumed thread reports of its permissions. Each field holds the
/// reported value where it has the expected JSON type.
pub struct ResumeReport {
    /// `activePermissionProfile.id`.
    pub active_profile_id: Option<String>,
    /// `approvalPolicy`.
    pub approval_policy: Option<String>,
    /// `cwd`.
    pub cwd: Option<String>,
    /// `runtimeWorkspaceRoots`, where it is an array of texts.
    pub runtime_workspace_roots: Option<Vec<String>>,
    /// `sandbox.type`.
    pub sandbox_type: Option<String>,
    /// `sandbox.networkAccess`.
    pub network_access: Option<bool>,
    /// `sandbox.excludeSlashTmp`.
    pub exclude_slash_tmp: Option<bool>,
    /// `sandbox.excludeTmpdirEnvVar`.
    pub exclude_tmpdir_env_var: Option<bool>,
    /// `sandbox.writableRoots`, where it is an array of texts.
    pub writable_roots: Option<Vec<String>>,
}

/// An optional text is exactly `s`.
pub open spec fn is_text(o: Option<String>, s: Seq<char>) -> bool {
    match o {
        Some(x) => x@ == s,
        None => false,
    }
}

/// An optional list of texts is exactly `s`.
pub open spec fn is_texts(o: Option<Vec<String>>, s: Seq<Seq<char>>) -> bool {
    match o {
        Some(x) => text_views(x@) == s,
        None => false,
    }
}

/// The thread applied exactly the restricted profile: the run's permission
/// profile, no approvals, the workspace as its only root, a workspace-write
/// sandbox without network access and without the temporary directories,
/// writable beyond the workspace only in the build roots.
pub open spec fn permissions_ok(r: ResumeReport, profile: Seq<char>, cwd: Seq<char>, build_roots: Seq<Seq<char>>) -> bool {
    &&& is_text(r.active_profile_id, profile)
    &&& is_text(r.approval_policy, "never"@)
    &&& is_text(r.cwd, cwd)
    &&& is_texts(r.runtime_workspace_roots, seq![cwd])
    &&& is_text(r.sandbox_type, "workspaceWrite"@)
    &&& r.network_access == Some(false)
    &&& r.exclude_slash_tmp == Some(true)
    &&& r.exclude_tmpdir_env_var == Some(true)
    &&& is_texts(r.writable_roots, build_roots)
}

fn opt_text_is(o: &Option<String>, s: &str) -> (r: bool)
    ensures
        r == is_text(*o, s@),
{
    match o {
        Some(x) => str_eq(x.as_str(), s),
        None => false,
    }
}

fn texts_equal(a: &Vec<String>, b: &Vec<String>) -> (r: bool)
    ensures
        r == (text_views(a@) == text_views(b@)),
{
    if a.len() != b.len() {
        proof {
            assert(text_views(a@).len() != text_views(b@).len());
        }
        return false;
    }
    let mut i: usize = 0;
    while i < a.len()
        invariant
            a@.len() == b@.len(),
            i <= a@.len(),
            forall|k: int| 0 <= k < i ==> a@[k]@ == b@[k]@,
        decreases a@.len() - i,
    {
        if !str_eq(a[i].as_str(), b[i].as_str()) {
            proof {
                assert(text_views(a@)[i as int] != text_views(b@)[i as int]);
            }
            return false;
        }
        i = i + 1;
    }
    proof {
        assert(text_views(a@) =~= text_views(b@));
    }
    true
}

fn opt_texts_are(o: &Option<Vec<String>>, s: &Vec<String>) -> (r: bool)
    ensures
        r == is_texts(*o, text_views(s@)),
{
    match o {
        Some(x) => texts_equal(x, s),
        None => false,
    }
}

/// Admits the resumed thread only where it applied the restricted profile,
/// as [`permissions_ok`] says.
pub fn verify_permissions(
    result: &ResumeReport,
    profile: &str,
    cwd: &str,
    build_roots: &Vec<String>,
) -> (r: Result<(), AdmissionError>)
    ensures
        r is Ok <==> permissions_ok(*result, profile@, cwd@, text_views(build_roots@)),
        r is Err ==> r == Err::<(), AdmissionError>(AdmissionError::RestrictedPermissions),
{
    let mut roots: Vec<String> = Vec::new();
    roots.push(String::from_str(cwd));
    proof {
        assert(text_views(roots@) =~= seq![cwd@]);
    }
    let ok = opt_text_is(&result.active_profile_id, profile) && opt_text_is(&result.approval_policy, "never")
        && opt_text_is(&result.cwd, cwd) && opt_texts_are(&result.runtime_workspace_roots, &roots)
        && opt_text_is(&result.sandbox_type, "workspaceWrite") && result.network_access == Some(false)
        && result.exclude_slash_tmp == Some(true) && result.exclude_tmpdir_env_var == Some(true)
        && opt_texts_are(&result.writable_roots, build_roots);
    if ok {
        Ok(())
    } else {
        Err(AdmissionError::RestrictedPermissions)
    }
}

/// The thread id of the resumed thread, which must be reported.
pub fn resumed_thread_id(thread_id: Option<&str>) -> (r: Result<&str, AdmissionError>)
    ensures
        match thread_id {
            Some(t) => r == Ok::<&str, AdmissionError>(t),
            None => r == Err::<&str, AdmissionError>(AdmissionError::MissingThread),
        },
{
    match thread_id {
        Some(t) => Ok(t),
        None => Err(AdmissionError::MissingThread),
    }
}

/// The MCP server inventory of the resumed thread: the runtime status of
/// each entry where `data` is an array (`None` for a status that is not
/// text), and whether no further page follows.
pub struct ToolInventory {
    pub statuses: Option<Vec<Option<String>>>,
    pub last_page: bool,
}

/// Admits the thread only where its whole tool inventory is known and every
/// external server is disabled.
pub fn verify_tool_inventory(inventory: &ToolInventory) -> (r: Result<(), AdmissionError>)
    ensures
        match &inventory.statuses {
            None => r == Err::<(), AdmissionError>(AdmissionError::CannotVerifyTools),
            Some(st) => if inventory.last_page && forall|i: int| 0 <= i < st@.len() ==> is_text(
                #[trigger] st@[i],
                "disabled"@,
            ) {
                r is Ok
            } else {
                r == Err::<(), AdmissionError>(AdmissionError::ExternalTools)
            },
        },
{
    match &inventory.statuses {
        None => Err(AdmissionError::CannotVerifyTools),
        Some(st) => {
            if inventory.last_page && all_disabled(st) {
                Ok(())
            } else {
                Err(AdmissionError::ExternalTools)
            }
        },
    }
}

fn all_disabled(st: &Vec<Option<String>>) -> (r: bool)
    ensures
        r == forall|i: int| 0 <= i < st@.len() ==> is_text(#[trigger] st@[i], "disabled"@),
{
    let mut i: usize = 0;
    while i < st.len()
        invariant
            i <= st@.len(),
            forall|k: int| 0 <= k < i ==> is_text(#[trigger] st@[k], "disabled"@),
        decreases st@.len() - i,
    {
        if !opt_text_is(&st[i], "disabled") {
            return false;
        }
        i = i + 1;
    }
    true
}

/// At most eight build directories may be configured.
pub fn check_build_root_count(count: usize) -> (r: Result<(), AdmissionError>)
    ensures
        r is Ok <==> count <= 8,
        r is Err ==> r == Err::<(), AdmissionError>(AdmissionError::TooManyBuildRoots),
{
    if count > 8 {
        Err(AdmissionError::TooManyBuildRoots)
    } else {
        Ok(())
    }
}


/// A value of the configuration a scheduled resume overrides.
pub enum OverrideValue {
    Text(String),
    Number(i64),
    Flag(bool),
    /// A filesystem permission table: each listed path has the listed
    /// access (a later entry for the same path replaces an earlier one), and
    /// the second list is the table under `:workspace_roots`, the access
    /// given inside the workspace roots.
    Filesystem(Vec<(String, String)>, Vec<(String, String)>),
    /// The MCP servers, each switched off.
    DisabledServers(Vec<String>),
}

/// An override value as plain values.
pub enum OverrideView {
    Text(Seq<char>),
    Number(i64),
    Flag(bool),
    Filesystem(Seq<(Seq<char>, Seq<char>)>, Seq<(Seq<char>, Seq<char>)>),
    DisabledServers(Seq<Seq<char>>),
}

impl View for OverrideValue {
    type V = OverrideView;

    open spec fn view(&self) -> OverrideView {
        match self {
            OverrideValue::Text(t) => OverrideView::Text(t@),
            OverrideValue::Number(n) => OverrideView::Number(*n),
            OverrideValue::Flag(b) => OverrideView::Flag(*b),
            OverrideValue::Filesystem(es, ws) => OverrideView::Filesystem(
                es@.map_values(|e: (String, String)| (e.0@, e.1@)),
                ws@.map_values(|e: (String, String)| (e.0@, e.1@)),
            ),
            OverrideValue::DisabledServers(ns) => OverrideView::DisabledServers(text_views(ns@)),
        }
    }
}

/// The overrides as plain values.
pub open spec fn override_views(os: Seq<(String, OverrideValue)>) -> Seq<(Seq<char>, OverrideView)> {
    os.map_values(|o: (String, OverrideValue)| (o.0@, o.1@))
}

/// The filesystem table of a scheduled profile: everything readable, and
/// the build roots writable.
pub open spec fn filesystem_spec(build_roots: Seq<Seq<char>>) -> Seq<(Seq<char>, Seq<char>)> {
    seq![("/"@, "read"@)] + build_roots.map_values(|r: Seq<char>| (r, "write"@))
}

/// The `:workspace_roots` table of a scheduled profile: the workspace
/// roots writable.
pub open spec fn workspace_roots_spec() -> Seq<(Seq<char>, Seq<char>)> {
    seq![("."@, "write"@)]
}

/// The configuration a scheduled resume applies: the run's permission
/// profile as the default, no sub-agents and one thread, the profile's
/// filesystem table (with the workspace roots writable) without network, every MCP server switched off, and
/// each of [`DISABLED_FEATURES`] switched off, in this order.
pub open spec fn overrides_spec(profile: Seq<char>, build_roots: Seq<Seq<char>>, servers: Seq<Seq<char>>) -> Seq<
    (Seq<char>, OverrideView),
> {
    seq![
        ("default_permissions"@, OverrideView::Text(profile)),
        ("agents.max_depth"@, OverrideView::Number(0)),
        ("agents.max_concurrent_threads_per_session"@, OverrideView::Number(1)),
        ("permissions."@ + profile + ".filesystem"@, OverrideView::Filesystem(filesystem_spec(build_roots), workspace_roots_spec())),
        ("permissions."@ + profile + ".network.enabled"@, OverrideView::Flag(false)),
        ("mcp_servers"@, OverrideView::DisabledServers(servers)),
    ] + DISABLED_FEATURES@.map_values(|f: &'static str| ("features."@ + f@, OverrideView::Flag(false)))
}

fn push_override(out: &mut Vec<(String, OverrideValue)>, key: String, value: OverrideValue)
    ensures
        override_views(final(out)@) == override_views(old(out)@).push((key@, value@)),
{
    let ghost kv = (key@, value@);
    out.push((key, value));
    proof {
        assert(override_views(out@) =~= override_views(old(out)@).push(kv));
    }
}

/// The configuration overrides of a scheduled resume, as
/// [`overrides_spec`] says, for the run's profile, its build roots and the
/// resolved MCP servers.
pub fn scheduled_config_overrides(profile: &str, build_roots: &Vec<String>, mcp_servers: &Vec<String>) -> (r: Vec<
    (String, OverrideValue),
>)
    ensures
        override_views(r@) == overrides_spec(profile@, text_views(build_roots@), text_views(mcp_servers@)),
{
    let mut out: Vec<(String, OverrideValue)> = Vec::new();
    push_override(&mut out, String::from_str("default_permissions"), OverrideValue::Text(String::from_str(profile)));
    push_override(&mut out, String::from_str("agents.max_depth"), OverrideValue::Number(0));
    push_override(
        &mut out,
        String::from_str("agents.max_concurrent_threads_per_session"),
        OverrideValue::Number(1),
    );
    let mut table: Vec<(String, String)> = Vec::new();
    table.push((String::from_str("/"), String::from_str("read")));
    let mut i: usize = 0;
    while i < build_roots.len()
        invariant
            i <= build_roots@.len(),
            table@.map_values(|e: (String, String)| (e.0@, e.1@)) == filesystem_spec(
                text_views(build_roots@.subrange(0, i as int)),
            ),
        decreases build_roots@.len() - i,
    {
        let ghost before = table@.map_values(|e: (String, String)| (e.0@, e.1@));
        table.push((build_roots[i].clone(), String::from_str("write")));
        proof {
            assert(table@.map_values(|e: (String, String)| (e.0@, e.1@)) =~= before.push(
                (build_roots@[i as int]@, "write"@),
            ));
            assert(text_views(build_roots@.subrange(0, i + 1)) =~= text_views(build_roots@.subrange(0, i as int)).push(
                build_roots@[i as int]@,
            ));
            assert(filesystem_spec(text_views(build_roots@.subrange(0, i + 1))) =~= filesystem_spec(
                text_views(build_roots@.subrange(0, i as int)),
            ).push((build_roots@[i as int]@, "write"@)));
        }
        i = i + 1;
    }
    proof {
        assert(build_roots@.subrange(0, build_roots@.len() as int) =~= build_roots@);
    }
    let prefix = "permissions.".to_string().concat(profile);
    let mut workspace_table: Vec<(String, String)> = Vec::new();
    workspace_table.push((String::from_str("."), String::from_str("write")));
    proof {
        assert(workspace_table@.map_values(|e: (String, String)| (e.0@, e.1@)) =~= workspace_roots_spec());
    }
    push_override(
        &mut out,
        prefix.clone().concat(".filesystem"),
        OverrideValue::Filesystem(table, workspace_table),
    );
    push_override(&mut out, prefix.concat(".network.enabled"), OverrideValue::Flag(false));
    push_override(&mut out, String::from_str("mcp_servers"), OverrideValue::DisabledServers(copy_texts(mcp_servers)));
    let ghost head = override_views(out@);
    let mut k: usize = 0;
    while k < 12
        invariant
            k <= 12,
            DISABLED_FEATURES@.len() == 12,
            override_views(out@) == head + DISABLED_FEATURES@.subrange(0, k as int).map_values(
                |f: &'static str| ("features."@ + f@, OverrideView::Flag(false)),
            ),
        decreases 12 - k,
    {
        let f = DISABLED_FEATURES[k];
        push_override(&mut out, "features.".to_string().concat(f), OverrideValue::Flag(false));
        proof {
            assert(DISABLED_FEATURES@.subrange(0, k + 1).map_values(
                |f: &'static str| ("features."@ + f@, OverrideView::Flag(false)),
            ) =~= DISABLED_FEATURES@.subrange(0, k as int).map_values(
                |f: &'static str| ("features."@ + f@, OverrideView::Flag(false)),
            ).push(("features."@ + f@, OverrideView::Flag(false))));
        }
        k = k + 1;
    }
    proof {
        assert(DISABLED_FEATURES@.subrange(0, 12) =~= DISABLED_FEATURES@);
        assert(override_views(out@) =~= overrides_spec(profile@, text_views(build_roots@), text_views(mcp_servers@)));
    }
    out
}


/// A value of the `config` table of a resume request.
pub enum ConfigValue {
    /// An entry the request already carried, as its JSON text.
    Given(String),
    /// An entry the scheduled run sets.
    Override(OverrideValue),
}

/// A configuration value as plain values.
pub enum ConfigValueView {
    Given(Seq<char>),
    Override(OverrideView),
}

impl View for ConfigValue {
    type V = ConfigValueView;

    open spec fn view(&self) -> ConfigValueView {
        match self {
            ConfigValue::Given(t) => ConfigValueView::Given(t@),
            ConfigValue::Override(o) => ConfigValueView::Override(o@),
        }
    }
}

/// A thread resume request as the session built it: the fields a scheduled
/// run changes, and the others by name with their JSON text.
pub struct ResumeParams {
    pub cwd: Option<String>,
    /// `approvalPolicy`, as JSON text, where it is set.
    pub approval_policy: Option<String>,
    /// `sandbox`, as JSON text, where it is set.
    pub sandbox: Option<String>,
    pub runtime_workspace_roots: Option<Vec<String>>,
    /// The `config` table, by key with the JSON text of each value.
    pub config: Option<Vec<(String, String)>>,
    pub other: Vec<(String, String)>,
}

/// The resume request a scheduled run sends: it has no `sandbox` field.
pub struct ResumeRequest {
    pub cwd: Option<String>,
    pub approval_policy: String,
    pub runtime_workspace_roots: Vec<String>,
    pub config: Vec<(String, ConfigValue)>,
    pub other: Vec<(String, String)>,
}

/// Pairs of texts as plain values.
pub open spec fn pair_views(ps: Seq<(String, String)>) -> Seq<(Seq<char>, Seq<char>)> {
    ps.map_values(|p: (String, String)| (p.0@, p.1@))
}

/// A resume request as the session built it, as plain values.
pub struct ResumeParamsView {
    pub cwd: Option<Seq<char>>,
    pub approval_policy: Option<Seq<char>>,
    pub sandbox: Option<Seq<char>>,
    pub runtime_workspace_roots: Option<Seq<Seq<char>>>,
    pub config: Option<Seq<(Seq<char>, Seq<char>)>>,
    pub other: Seq<(Seq<char>, Seq<char>)>,
}

/// A scheduled resume request as plain values.
pub struct ResumeRequestView {
    pub cwd: Option<Seq<char>>,
    pub approval_policy: Seq<char>,
    pub runtime_workspace_roots: Seq<Seq<char>>,
    pub config: Seq<(Seq<char>, ConfigValueView)>,
    pub other: Seq<(Seq<char>, Seq<char>)>,
}

/// An optional text as a plain value.
pub open spec fn opt_view(o: Option<String>) -> Option<Seq<char>> {
    match o {
        Some(s) => Some(s@),
        None => None,
    }
}

impl View for ResumeParams {
    type V = ResumeParamsView;

    open spec fn view(&self) -> ResumeParamsView {
        ResumeParamsView {
            cwd: opt_view(self.cwd),
            approval_policy: opt_view(self.approval_policy),
            sandbox: opt_view(self.sandbox),
            runtime_workspace_roots: match self.runtime_workspace_roots {
                Some(r) => Some(text_views(r@)),
                None => None,
            },
            config: match self.config {
                Some(c) => Some(pair_views(c@)),
                None => None,
            },
            other: pair_views(self.other@),
        }
    }
}

/// Configuration entries as plain values.
pub open spec fn config_views(cs: Seq<(String, ConfigValue)>) -> Seq<(Seq<char>, ConfigValueView)> {
    cs.map_values(|c: (String, ConfigValue)| (c.0@, c.1@))
}

impl View for ResumeRequest {
    type V = ResumeRequestView;

    open spec fn view(&self) -> ResumeRequestView {
        ResumeRequestView {
            cwd: opt_view(self.cwd),
            approval_policy: self.approval_policy@,
            runtime_workspace_roots: text_views(self.runtime_workspace_roots@),
            config: config_views(self.config@),
            other: pair_views(self.other@),
        }
    }
}

/// Some override sets `key`.
pub open spec fn overridden(key: Seq<char>, overrides: Seq<(Seq<char>, OverrideView)>) -> bool {
    exists|i: int| 0 <= i < overrides.len() && overrides[i].0 == key
}

/// The entries of the request's own configuration that no override
/// replaces, in order.
pub open spec fn kept_config(given: Seq<(Seq<char>, Seq<char>)>, overrides: Seq<(Seq<char>, OverrideView)>) -> Seq<
    (Seq<char>, ConfigValueView),
>
    decreases given.len(),
{
    if given.len() == 0 {
        Seq::empty()
    } else {
        let rest = kept_config(given.drop_last(), overrides);
        if overridden(given.last().0, overrides) {
            rest
        } else {
            rest.push((given.last().0, ConfigValueView::Given(given.last().1)))
        }
    }
}

/// The overrides as configuration entries.
pub open spec fn override_entries(overrides: Seq<(Seq<char>, OverrideView)>) -> Seq<(Seq<char>, ConfigValueView)> {
    overrides.map_values(|o: (Seq<char>, OverrideView)| (o.0, ConfigValueView::Override(o.1)))
}

/// The request a scheduled resume sends for the session's request `p` in
/// workspace `cwd` with configuration `overrides`: the sandbox field
/// dropped, approval never asked for, the workspace as the only runtime
/// root, and the request's configuration with the overrides set on top
/// (replacing entries of the same key); every other field as it was.
pub open spec fn resume_request_spec(
    p: ResumeParamsView,
    cwd: Seq<char>,
    overrides: Seq<(Seq<char>, OverrideView)>,
) -> ResumeRequestView {
    ResumeRequestView {
        cwd: p.cwd,
        approval_policy: "never"@,
        runtime_workspace_roots: seq![cwd],
        config: kept_config(
            match p.config {
                Some(c) => c,
                None => Seq::empty(),
            },
            overrides,
        ) + override_entries(overrides),
        other: p.other,
    }
}

fn is_overridden(key: &str, overrides: &Vec<(String, OverrideValue)>) -> (r: bool)
    ensures
        r == overridden(key@, override_views(overrides@)),
{
    let ghost ov = override_views(overrides@);
    let mut i: usize = 0;
    while i < overrides.len()
        invariant
            i <= overrides@.len(),
            ov == override_views(overrides@),
            forall|k: int| 0 <= k < i ==> ov[k].0 != key@,
        decreases overrides@.len() - i,
    {
        if str_eq(overrides[i].0.as_str(), key) {
            assert(ov[i as int].0 == key@);
            return true;
        }
        i = i + 1;
    }
    false
}

/// The request of a scheduled resume, built from the configuration the app
/// server resolved for the workspace (`None` where it was not an object),
/// as [`check_effective_config`] and [`resume_request_spec`] say: with the
/// run's profile (named after the permission `lease_id`), its build roots,
/// and every resolved MCP server switched off.
pub fn scheduled_resume_request(
    params: ResumeParams,
    cwd: &str,
    lease_id: &str,
    build_roots: &Vec<String>,
    effective: Option<&EffectiveConfig>,
) -> (r: Result<ResumeRequest, AdmissionError>)
    ensures
        match effective {
            None => r == Err::<ResumeRequest, AdmissionError>(AdmissionError::CannotVerifyConfig),
            Some(c) => if c.hooks == HooksValue::Other {
                r == Err::<ResumeRequest, AdmissionError>(AdmissionError::LifecycleHooks)
            } else {
                match &c.mcp_servers {
                    None => r == Err::<ResumeRequest, AdmissionError>(AdmissionError::CannotResolveMcp),
                    Some(names) => r is Ok && r->Ok_0@ == resume_request_spec(
                        params@,
                        cwd@,
                        overrides_spec(
                            "vk_capacity_"@ + dashes_to_underscores(lease_id@),
                            text_views(build_roots@),
                            text_views(names@),
                        ),
                    ),
                }
            },
        },
{
    let servers = match check_effective_config(effective) {
        Err(e) => {
            return Err(e);
        },
        Ok(names) => names,
    };
    let ghost pv = params@;
    let profile = capacity_profile_name(lease_id);
    let mut overrides = scheduled_config_overrides(profile.as_str(), build_roots, &servers);
    let ghost ov = override_views(overrides@);
    let given: Vec<(String, String)> = match params.config {
        Some(c) => c,
        None => Vec::new(),
    };
    let ghost gv = pair_views(given@);
    proof {
        assert(gv =~= match pv.config {
            Some(c) => c,
            None => Seq::<(Seq<char>, Seq<char>)>::empty(),
        });
    }
    let mut config: Vec<(String, ConfigValue)> = Vec::new();
    let mut i: usize = 0;
    while i < given.len()
        invariant
            i <= given@.len(),
            gv == pair_views(given@),
            ov == override_views(overrides@),
            config_views(config@) == kept_config(gv.subrange(0, i as int), ov),
        decreases given@.len() - i,
    {
        proof {
            let t = gv.subrange(0, i + 1);
            assert(t.drop_last() =~= gv.subrange(0, i as int));
        }
        if !is_overridden(given[i].0.as_str(), &overrides) {
            let ghost before = config_views(config@);
            config.push((given[i].0.clone(), ConfigValue::Given(given[i].1.clone())));
            proof {
                assert(config_views(config@) =~= before.push((gv[i as int].0, ConfigValueView::Given(gv[i as int].1))));
            }
        }
        i = i + 1;
    }
    proof {
        assert(gv.subrange(0, gv.len() as int) =~= gv);
    }
    let ghost kept = config_views(config@);
    let n = overrides.len();
    let mut k: usize = 0;
    while k < n
        invariant
            k <= n,
            n == ov.len(),
            overrides@.len() == n - k,
            override_views(overrides@) == ov.subrange(k as int, n as int),
            config_views(config@) == kept + override_entries(ov.subrange(0, k as int)),
        decreases n - k,
    {
        let ghost before = config_views(config@);
        let ghost rest = override_views(overrides@);
        let (key, value) = overrides.remove(0);
        proof {
            assert(rest[0] == (key@, value@));
            assert(override_views(overrides@) =~= rest.drop_first());
            assert(ov.subrange(k as int, n as int).drop_first() =~= ov.subrange(k + 1, n as int));
            assert(ov[k as int] == rest[0]);
        }
        config.push((key, ConfigValue::Override(value)));
        proof {
            assert(override_entries(ov.subrange(0, k + 1)) =~= override_entries(ov.subrange(0, k as int)).push(
                (ov[k as int].0, ConfigValueView::Override(ov[k as int].1)),
            ));
            assert(config_views(config@) =~= before.push((ov[k as int].0, ConfigValueView::Override(ov[k as int].1))));
        }
        k = k + 1;
    }
    proof {
        assert(ov.subrange(0, n as int) =~= ov);
    }
    let mut roots: Vec<String> = Vec::new();
    roots.push(String::from_str(cwd));
    proof {
        assert(text_views(roots@) =~= seq![cwd@]);
        reveal_strlit("never");
    }
    Ok(
        ResumeRequest {
            cwd: params.cwd,
            approval_policy: String::from_str("never"),
            runtime_workspace_roots: roots,
            config,
            other: params.other,
        },
    )
}


/// The components of a path other than `.`, as `Path::components` lists
/// the named ones.
pub open spec fn components(p: Seq<char>) -> Seq<Seq<char>> {
    named_segments(slash_segments(p))
}

/// Whether a path starts at the root.
pub open spec fn is_rooted(p: Seq<char>) -> bool {
    p.len() > 0 && p[0] == '/'
}

/// Path `p` is `base` or lies beneath it, comparing whole components (what
/// `Path::starts_with` answers for the canonical paths compared here).
pub open spec fn path_within(p: Seq<char>, base: Seq<char>) -> bool {
    &&& is_rooted(p) == is_rooted(base)
    &&& components(base).len() <= components(p).len()
    &&& components(p).subrange(0, components(base).len() as int) == components(base)
}

fn component_list(p: &str) -> (r: Vec<String>)
    ensures
        text_views(r@) == components(p@),
{
    let segs = split_slash_segments(p);
    let ghost sv = text_views(segs@);
    proof {
        assert(sv =~= segs@.map_values(|s: String| s@));
    }
    let mut kept: Vec<String> = Vec::new();
    let mut i: usize = 0;
    while i < segs.len()
        invariant
            i <= segs@.len(),
            sv == text_views(segs@),
            sv == slash_segments(p@),
            text_views(kept@) == named_segments(sv.subrange(0, i as int)),
        decreases segs@.len() - i,
    {
        proof {
            assert(sv.subrange(0, i + 1).drop_last() =~= sv.subrange(0, i as int));
            assert(sv[i as int] == segs@[i as int]@);
        }
        if !str_eq(segs[i].as_str(), ".") {
            let ghost before = text_views(kept@);
            kept.push(segs[i].clone());
            proof {
                assert(text_views(kept@) =~= before.push(sv[i as int]));
            }
        }
        i = i + 1;
    }
    proof {
        assert(sv.subrange(0, segs@.len() as int) =~= sv);
    }
    kept
}

/// Whether path `p` is `base` or lies beneath it, as [`path_within`] says.
pub fn path_starts_with(p: &str, base: &str) -> (r: bool)
    ensures
        r == path_within(p@, base@),
{
    let rooted_p = p.unicode_len() > 0 && p.get_char(0) == '/';
    let rooted_b = base.unicode_len() > 0 && base.get_char(0) == '/';
    if rooted_p != rooted_b {
        return false;
    }
    let pc = component_list(p);
    let bc = component_list(base);
    if bc.len() > pc.len() {
        return false;
    }
    let mut i: usize = 0;
    while i < bc.len()
        invariant
            text_views(pc@) == components(p@),
            text_views(bc@) == components(base@),
            is_rooted(p@) == is_rooted(base@),
            bc@.len() <= pc@.len(),
            i <= bc@.len(),
            forall|k: int| 0 <= k < i ==> pc@[k]@ == bc@[k]@,
        decreases bc@.len() - i,
    {
        if !str_eq(pc[i].as_str(), bc[i].as_str()) {
            proof {
                assert(text_views(pc@).subrange(0, bc@.len() as int)[i as int] != text_views(bc@)[i as int]);
            }
            return false;
        }
        i = i + 1;
    }
    proof {
        assert(text_views(pc@).subrange(0, bc@.len() as int) =~= text_views(bc@));
    }
    true
}

/// No protected path lies in the scope: the workspace a scheduled run may
/// write must not contain its permission file, its guard, or the agent's
/// state. All paths are canonical.
pub fn verify_scope(scope: &str, protected: &Vec<String>) -> (r: Result<(), AdmissionError>)
    ensures
        r is Err <==> exists|i: int| 0 <= i < protected@.len() && path_within(#[trigger] protected@[i]@, scope@),
        r is Err ==> r == Err::<(), AdmissionError>(AdmissionError::ScopeOverlap),
{
    let mut i: usize = 0;
    while i < protected.len()
        invariant
            i <= protected@.len(),
            forall|k: int| 0 <= k < i ==> !path_within(#[trigger] protected@[k]@, scope@),
        decreases protected@.len() - i,
    {
        if path_starts_with(protected[i].as_str(), scope) {
            return Err(AdmissionError::ScopeOverlap);
        }
        i = i + 1;
    }
    Ok(())
}

/// Some protected path contains `p`.
pub open spec fn inside_protected(p: Seq<char>, protected: Seq<Seq<char>>) -> bool {
    exists|i: int| 0 <= i < protected.len() && path_within(p, #[trigger] protected[i])
}

/// Some protected path lies in `p`.
pub open spec fn contains_protected(p: Seq<char>, protected: Seq<Seq<char>>) -> bool {
    exists|i: int| 0 <= i < protected.len() && path_within(#[trigger] protected[i], p)
}

/// The refusal a list of build roots meets, checking them in order: one
/// that is not an existing absolute directory (`None`), one that contains a
/// protected path, or one inside a protected path.
pub open spec fn root_error(roots: Seq<Option<Seq<char>>>, protected: Seq<Seq<char>>) -> Option<AdmissionError>
    decreases roots.len(),
{
    if roots.len() == 0 {
        None
    } else {
        match roots[0] {
            None => Some(AdmissionError::BuildRootInvalid),
            Some(r) => if contains_protected(r, protected) {
                Some(AdmissionError::ScopeOverlap)
            } else if inside_protected(r, protected) {
                Some(AdmissionError::BuildRootInAuthority)
            } else {
                root_error(roots.drop_first(), protected)
            },
        }
    }
}

/// Whether `p` lies in one of the protected paths, as [`inside_protected`]
/// says.
fn lies_inside_any(p: &str, protected: &Vec<String>) -> (r: bool)
    ensures
        r == inside_protected(p@, text_views(protected@)),
{
    let ghost pv = text_views(protected@);
    let mut j: usize = 0;
    while j < protected.len()
        invariant
            j <= protected@.len(),
            pv == text_views(protected@),
            forall|k: int| 0 <= k < j ==> !path_within(p@, #[trigger] pv[k]),
        decreases protected@.len() - j,
    {
        if path_starts_with(p, protected[j].as_str()) {
            proof {
                assert(path_within(p@, pv[j as int]));
            }
            return true;
        }
        j = j + 1;
    }
    false
}

/// A list strictly increasing in text order: sorted, each text once.
pub open spec fn strictly_sorted(r: Seq<Seq<char>>) -> bool {
    forall|i: int, j: int| 0 <= i < j < r.len() ==> seq_lt(r[i], r[j])
}

/// `x` is one of the roots.
pub open spec fn listed_root(roots: Seq<Option<Seq<char>>>, x: Seq<char>) -> bool {
    exists|i: int| 0 <= i < roots.len() && roots[i] == Some(x)
}

fn insert_sorted(out: &mut Vec<String>, x: String)
    requires
        strictly_sorted(text_views(old(out)@)),
    ensures
        strictly_sorted(text_views(final(out)@)),
        forall|y: Seq<char>| text_views(final(out)@).contains(y) <==> (text_views(old(out)@).contains(y) || y == x@),
{
    let ghost v = text_views(out@);
    let mut p: usize = 0;
    while p < out.len() && str_lt(out[p].as_str(), x.as_str())
        invariant
            p <= out@.len(),
            v == text_views(out@),
            forall|k: int| 0 <= k < p ==> seq_lt(#[trigger] v[k], x@),
        decreases out@.len() - p,
    {
        p = p + 1;
    }
    if p < out.len() && str_eq(out[p].as_str(), x.as_str()) {
        proof {
            assert forall|y: Seq<char>| v.contains(y) <==> (v.contains(y) || y == x@) by {
                if y == x@ {
                    assert(v[p as int] == y);
                }
            }
        }
        return;
    }
    proof {
        if p < v.len() {
            lemma_seq_lt_total(v[p as int], x@);
            assert forall|k: int| p <= k < v.len() implies seq_lt(x@, #[trigger] v[k]) by {
                if k > p {
                    lemma_seq_lt_transitive(x@, v[p as int], v[k]);
                }
            }
        }
    }
    let ghost xv = x@;
    out.insert(p, x);
    proof {
        let w = text_views(out@);
        assert(w =~= v.insert(p as int, xv));
        assert forall|i: int, j: int| 0 <= i < j < w.len() implies seq_lt(w[i], w[j]) by {
            if j < p {
            } else if i < p && j == p {
            } else if i < p && j > p {
                assert(w[j] == v[j - 1]);
            } else if i == p {
                assert(w[j] == v[j - 1]);
            } else {
                assert(w[i] == v[i - 1] && w[j] == v[j - 1]);
            }
        }
        assert forall|y: Seq<char>| w.contains(y) <==> (v.contains(y) || y == xv) by {
            if w.contains(y) {
                let k = choose|k: int| 0 <= k < w.len() && w[k] == y;
                if k < p {
                    assert(v[k] == y);
                } else if k > p {
                    assert(v[k - 1] == y);
                }
            }
            if v.contains(y) {
                let k = choose|k: int| 0 <= k < v.len() && v[k] == y;
                if k < p {
                    assert(w[k] == y);
                } else {
                    assert(w[k + 1] == y);
                }
            }
            if y == xv {
                assert(w[p as int] == y);
            }
        }
    }
}

/// The build directories a scheduled run may also write, from the
/// configured ones (each canonical, or `None` where it is not an existing
/// absolute directory) and the protected paths: at most eight, none
/// containing or inside a protected path, returned sorted without
/// repetition.
pub fn build_roots(roots: &Vec<Option<String>>, protected: &Vec<String>) -> (r: Result<Vec<String>, AdmissionError>)
    ensures
        roots@.len() > 8 ==> r == Err::<Vec<String>, AdmissionError>(AdmissionError::TooManyBuildRoots),
        roots@.len() <= 8 ==> match root_error(roots@.map_values(|o: Option<String>| match o {
            Some(s) => Some(s@),
            None => None,
        }), text_views(protected@)) {
            Some(e) => r == Err::<Vec<String>, AdmissionError>(e),
            None => r is Ok && strictly_sorted(text_views(r->Ok_0@)) && forall|x: Seq<char>|
                text_views(r->Ok_0@).contains(x) <==> listed_root(
                    roots@.map_values(|o: Option<String>| match o {
                        Some(s) => Some(s@),
                        None => None,
                    }),
                    x,
                ),
        },
{
    let ghost rv = roots@.map_values(|o: Option<String>| match o {
        Some(s) => Some(s@),
        None => None,
    });
    let ghost pv = text_views(protected@);
    if roots.len() > 8 {
        return Err(AdmissionError::TooManyBuildRoots);
    }
    let mut out: Vec<String> = Vec::new();
    let mut i: usize = 0;
    proof {
        assert(rv.subrange(0, rv.len() as int) =~= rv);
    }
    while i < roots.len()
        invariant
            roots@.len() <= 8,
            i <= roots@.len(),
            rv == roots@.map_values(|o: Option<String>| match o {
                Some(s) => Some(s@),
                None => None,
            }),
            pv == text_views(protected@),
            root_error(rv, pv) == root_error(rv.subrange(i as int, rv.len() as int), pv),
            forall|k: int| 0 <= k < i ==> rv[k] is Some,
            strictly_sorted(text_views(out@)),
            forall|x: Seq<char>| text_views(out@).contains(x) <==> listed_root(rv.subrange(0, i as int), x),
        decreases roots@.len() - i,
    {
        let ghost t = rv.subrange(i as int, rv.len() as int);
        proof {
            assert(t[0] == rv[i as int]);
            assert(t.drop_first() =~= rv.subrange(i + 1, rv.len() as int));
        }
        let root = match &roots[i] {
            None => {
                return Err(AdmissionError::BuildRootInvalid);
            },
            Some(r) => r,
        };
        proof {
            assert(rv[i as int] == Some(root@));
        }
        match verify_scope(root.as_str(), protected) {
            Err(e) => {
                proof {
                    let k = choose|k: int| 0 <= k < protected@.len() && path_within(#[trigger] protected@[k]@, root@);
                    assert(path_within(pv[k], root@));
                }
                return Err(e);
            },
            Ok(()) => {},
        }
        proof {
            assert forall|k: int| 0 <= k < pv.len() implies !path_within(#[trigger] pv[k], root@) by {
                assert(pv[k] == protected@[k]@);
            }
        }
        if lies_inside_any(root.as_str(), protected) {
            return Err(AdmissionError::BuildRootInAuthority);
        }
        let ghost before = text_views(out@);
        insert_sorted(&mut out, root.clone());
        proof {
            assert forall|x: Seq<char>| text_views(out@).contains(x) <==> listed_root(rv.subrange(0, i + 1), x) by {
                let s = rv.subrange(0, i + 1);
                if listed_root(s, x) {
                    let k = choose|k: int| 0 <= k < s.len() && s[k] == Some(x);
                    if k < i {
                        assert(rv.subrange(0, i as int)[k] == Some(x));
                    }
                }
                if listed_root(rv.subrange(0, i as int), x) {
                    let k = choose|k: int| 0 <= k < i && rv.subrange(0, i as int)[k] == Some(x);
                    assert(s[k] == Some(x));
                }
                if x == root@ {
                    assert(s[i as int] == Some(x));
                }
            }
        }
        i = i + 1;
    }
    proof {
        assert(rv.subrange(0, rv.len() as int) =~= rv);
        assert(rv.subrange(rv.len() as int, rv.len() as int).len() == 0);
    }
    Ok(out)
}

/// What `serde_json` reads from `text` as a list of strings; `None` where
/// the text is not one.
pub uninterp spec fn json_string_array(text: Seq<char>) -> Option<Seq<Seq<char>>>;

/// `serde_json::from_str::<Vec<String>>`: the list read is named
/// [`json_string_array`]; on failure the error's message, whose wording
/// the contract leaves unsaid.
#[verifier::external_body]
fn parse_string_array(text: &str) -> (r: Result<Vec<String>, String>)
    ensures
        match r {
            Ok(v) => json_string_array(text@) == Some(text_views(v@)),
            Err(_) => json_string_array(text@) is None,
        },
{
    match serde_json::from_str::<Vec<String>>(text) {
        Ok(v) => Ok(v),
        Err(e) => Err(e.to_string()),
    }
}

/// Why the configured build directories cannot be read.
#[derive(Clone, Debug, PartialEq, Eq)]
pub enum BuildRootsError {
    /// The setting is not a JSON list of strings; the parser's message.
    Unreadable(String),
    /// An admission rule refuses them.
    Refused(AdmissionError),
}

/// The build directories the service configured (the setting's text, where
/// it is set): none when unset; the listed paths of a JSON list of strings,
/// at most eight of them; an error for any other text.
pub fn configured_build_roots(value: Option<&str>) -> (r: Result<Vec<String>, BuildRootsError>)
    ensures
        value is None ==> r is Ok && r->Ok_0@.len() == 0,
        value is Some ==> match json_string_array(value->0@) {
            None => r is Err && r->Err_0 is Unreadable,
            Some(list) => if list.len() > 8 {
                r == Err::<Vec<String>, BuildRootsError>(BuildRootsError::Refused(AdmissionError::TooManyBuildRoots))
            } else {
                r is Ok && text_views(r->Ok_0@) == list
            },
        },
{
    let text = match value {
        None => {
            return Ok(Vec::new());
        },
        Some(t) => t,
    };
    let paths = match parse_string_array(text) {
        Err(message) => {
            return Err(BuildRootsError::Unreadable(message));
        },
        Ok(p) => p,
    };
    if paths.len() > 8 {
        return Err(BuildRootsError::Refused(AdmissionError::TooManyBuildRoots));
    }
    Ok(paths)
}

/// A configured build directory as the admission checks see it (the input
/// of [`build_roots`]): its canonical path `canonical_dir`, which the
/// caller looked up where the path names an existing directory, kept only
/// where the configured path is absolute.
pub fn build_root_candidate(raw: &str, canonical_dir: Option<String>) -> (r: Option<String>)
    ensures
        r is Some <==> (is_rooted(raw@) && canonical_dir is Some),
        r is Some ==> r == canonical_dir,
{
    if raw.unicode_len() > 0 && raw.get_char(0) == '/' {
        canonical_dir
    } else {
        None
    }
}

} // verus!
