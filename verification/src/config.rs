//! Filesystem locations used by the daemon and the `crontab` utility.
//!
//! Every path can be overridden with an environment variable of the form
//! `CRONTAB_RS_<NAME>`, but only when the process is not running set-user-ID
//! or set-group-ID, since a privileged `crontab` binary must not trust its
//! caller's environment.

use vstd::prelude::*;

use crate::crontab::env_get;
use crate::text::chars_of;

verus! {

#[derive(Debug, Clone, PartialEq, Eq)]
pub struct Config {
    /// Directory holding one crontab per user, named after the user.
    pub spool_dir: String,
    /// The system crontab (with user field).
    pub system_crontab: String,
    /// Directory of drop-in system crontabs.
    pub cron_d_dir: String,
    pub allow_file: String,
    pub deny_file: String,
    pub pid_file: String,
    /// Touched after `@reboot` jobs run so a daemon restart does not repeat
    /// them.
    pub reboot_file: String,
    /// Default `PATH` for jobs.
    pub default_path: String,
    /// Default `SHELL` for jobs.
    pub default_shell: String,
}

/// A directory and a name in it, as one path: an absolute name stands for
/// itself, and no second slash is added.
pub open spec fn joined(dir: Seq<char>, name: Seq<char>) -> Seq<char> {
    if name.len() > 0 && name[0] == '/' {
        name
    } else if dir.len() == 0 || dir.last() == '/' {
        dir + name
    } else {
        dir + "/"@ + name
    }
}

pub fn join(dir: &str, name: &str) -> (r: String)
    ensures
        r@ == joined(dir@, name@),
{
    let d = chars_of(dir);
    let n = chars_of(name);
    if n.len() > 0 && n[0] == '/' {
        return name.to_owned();
    }
    let mut out = dir.to_owned();
    if !(d.len() == 0 || d[d.len() - 1] == '/') {
        out.append("/");
    }
    out.append(name);
    out
}

/// True when the process runs with privileges it did not inherit from its
/// invoker (set-user-ID or set-group-ID binary).
pub fn is_privileged_binary(uid: u32, euid: u32, gid: u32, egid: u32) -> (r: bool)
    ensures
        r == (uid != euid || gid != egid),
{
    uid != euid || gid != egid
}

/// A path from the environment, or the default: the variable counts only if
/// it is not empty and the process is not privileged.
pub open spec fn overridden(
    privileged: bool,
    env: crate::crontab::EnvModel,
    name: Seq<char>,
    default: Seq<char>,
) -> Seq<char> {
    match crate::crontab::env_value(env, name) {
        Some(v) if !privileged && v.len() > 0 => v,
        _ => default,
    }
}

fn path_from(privileged: bool, env: &[(String, String)], name: &str, default: &str) -> (r: String)
    ensures
        r@ == overridden(privileged, crate::crontab::env_model(env@), name@, default@),
{
    match env_get(env, name) {
        Some(v) => {
            if !privileged && v.unicode_len() > 0 {
                v.to_owned()
            } else {
                default.to_owned()
            }
        },
        None => default.to_owned(),
    }
}

impl Config {
    /// Defaults with `CRONTAB_RS_*` variables of `env` applied when safe.
    pub fn from_env(privileged: bool, env: &[(String, String)]) -> (r: Config)
        ensures
            ({
                let e = crate::crontab::env_model(env@);
                let p = privileged;
                &&& r.spool_dir@ == overridden(p, e, "CRONTAB_RS_SPOOL_DIR"@, "/var/spool/cron"@)
                &&& r.system_crontab@ == overridden(
                    p,
                    e,
                    "CRONTAB_RS_SYSTEM_CRONTAB"@,
                    "/etc/crontab"@,
                )
                &&& r.cron_d_dir@ == overridden(p, e, "CRONTAB_RS_CRON_D"@, "/etc/cron.d"@)
                &&& r.allow_file@ == overridden(p, e, "CRONTAB_RS_ALLOW"@, "/etc/cron.allow"@)
                &&& r.deny_file@ == overridden(p, e, "CRONTAB_RS_DENY"@, "/etc/cron.deny"@)
                &&& r.pid_file@ == overridden(p, e, "CRONTAB_RS_PID_FILE"@, "/run/crond.pid"@)
                &&& r.reboot_file@ == overridden(
                    p,
                    e,
                    "CRONTAB_RS_REBOOT_FILE"@,
                    "/run/crond.reboot"@,
                )
                &&& r.default_path@ == "/usr/bin:/bin"@
                &&& r.default_shell@ == "/bin/sh"@
            }),
    {
        Config {
            spool_dir: path_from(privileged, env, "CRONTAB_RS_SPOOL_DIR", "/var/spool/cron"),
            system_crontab: path_from(
                privileged,
                env,
                "CRONTAB_RS_SYSTEM_CRONTAB",
                "/etc/crontab",
            ),
            cron_d_dir: path_from(privileged, env, "CRONTAB_RS_CRON_D", "/etc/cron.d"),
            allow_file: path_from(privileged, env, "CRONTAB_RS_ALLOW", "/etc/cron.allow"),
            deny_file: path_from(privileged, env, "CRONTAB_RS_DENY", "/etc/cron.deny"),
            pid_file: path_from(privileged, env, "CRONTAB_RS_PID_FILE", "/run/crond.pid"),
            reboot_file: path_from(
                privileged,
                env,
                "CRONTAB_RS_REBOOT_FILE",
                "/run/crond.reboot",
            ),
            default_path: "/usr/bin:/bin".to_owned(),
            default_shell: "/bin/sh".to_owned(),
        }
    }

    /// Path of a user's spool crontab.
    pub fn user_crontab(&self, user: &str) -> (r: String)
        ensures
            r@ == joined(self.spool_dir@, user@),
    {
        join(self.spool_dir.as_str(), user)
    }
}

impl Default for Config {
    /// The locations on Linux.
    fn default() -> (r: Config)
        ensures
            r.spool_dir@ == "/var/spool/cron"@,
            r.system_crontab@ == "/etc/crontab"@,
            r.cron_d_dir@ == "/etc/cron.d"@,
            r.allow_file@ == "/etc/cron.allow"@,
            r.deny_file@ == "/etc/cron.deny"@,
            r.pid_file@ == "/run/crond.pid"@,
            r.reboot_file@ == "/run/crond.reboot"@,
            r.default_path@ == "/usr/bin:/bin"@,
            r.default_shell@ == "/bin/sh"@,
    {
        Config {
            spool_dir: "/var/spool/cron".to_owned(),
            system_crontab: "/etc/crontab".to_owned(),
            cron_d_dir: "/etc/cron.d".to_owned(),
            allow_file: "/etc/cron.allow".to_owned(),
            deny_file: "/etc/cron.deny".to_owned(),
            pid_file: "/run/crond.pid".to_owned(),
            reboot_file: "/run/crond.reboot".to_owned(),
            default_path: "/usr/bin:/bin".to_owned(),
            default_shell: "/bin/sh".to_owned(),
        }
    }
}

/// A privileged process takes no path from its environment.
pub proof fn law_privileged_ignores_environment(
    env: crate::crontab::EnvModel,
    name: Seq<char>,
    default: Seq<char>,
)
    ensures
        overridden(true, env, name, default) == default,
{
}

/// A name is put behind its directory with one slash between them; an absolute
/// name stands for itself.
pub proof fn law_join(dir: Seq<char>, name: Seq<char>)
    ensures
        name.len() > 0 && name[0] == '/' ==> joined(dir, name) == name,
        dir.len() > 0 && dir.last() != '/' && !(name.len() > 0 && name[0] == '/') ==> joined(
            dir,
            name,
        ) == dir + seq!['/'] + name,
        dir.len() > 0 && dir.last() == '/' && !(name.len() > 0 && name[0] == '/') ==> joined(
            dir,
            name,
        ) == dir + name,
        dir.len() == 0 ==> joined(dir, name) == name,
{
    reveal_strlit("/");
    assert("/"@ =~= seq!['/']);
    if dir.len() == 0 {
        assert(dir + name =~= name);
    }
}

/// Without privileges a variable that is set and not empty names the path, and
/// otherwise the default does.
pub proof fn law_environment_overrides(
    env: crate::crontab::EnvModel,
    name: Seq<char>,
    value: Seq<char>,
    default: Seq<char>,
)
    ensures
        crate::crontab::env_value(env, name) == Some(value) && value.len() > 0 ==> overridden(
            false,
            env,
            name,
            default,
        ) == value,
        crate::crontab::env_value(env, name) == Some(Seq::<char>::empty()) ==> overridden(
            false,
            env,
            name,
            default,
        ) == default,
        crate::crontab::env_value(env, name) is None ==> overridden(false, env, name, default)
            == default,
{
}

/// A binary is privileged as soon as the effective user or the effective group
/// is not the real one.
pub proof fn law_privileged(uid: u32, euid: u32, gid: u32, egid: u32, r: bool)
    requires
        call_ensures(is_privileged_binary, (uid, euid, gid, egid), r),
    ensures
        uid != euid ==> r,
        gid != egid ==> r,
        uid == euid && gid == egid ==> !r,
{
}

/// Every path has its own variable and its own default. Privileged processes, and
/// those without such variables, use the defaults.
pub proof fn law_locations(privileged: bool, env: &[(String, String)], r: Config)
    requires
        call_ensures(Config::from_env, (privileged, env), r),
    ensures
        ({
            let e = crate::crontab::env_model(env@);
            &&& privileged ==> r.spool_dir@ == "/var/spool/cron"@ && r.system_crontab@
                == "/etc/crontab"@ && r.cron_d_dir@ == "/etc/cron.d"@ && r.allow_file@
                == "/etc/cron.allow"@ && r.deny_file@ == "/etc/cron.deny"@ && r.pid_file@
                == "/run/crond.pid"@ && r.reboot_file@ == "/run/crond.reboot"@
            &&& !privileged ==> {
                &&& crate::crontab::env_value(e, "CRONTAB_RS_SPOOL_DIR"@) is None ==> r.spool_dir@
                    == "/var/spool/cron"@
                &&& takes(e, "CRONTAB_RS_SPOOL_DIR"@, r.spool_dir@)
                &&& takes(e, "CRONTAB_RS_SYSTEM_CRONTAB"@, r.system_crontab@)
                &&& takes(e, "CRONTAB_RS_CRON_D"@, r.cron_d_dir@)
                &&& takes(e, "CRONTAB_RS_ALLOW"@, r.allow_file@)
                &&& takes(e, "CRONTAB_RS_DENY"@, r.deny_file@)
                &&& takes(e, "CRONTAB_RS_PID_FILE"@, r.pid_file@)
                &&& takes(e, "CRONTAB_RS_REBOOT_FILE"@, r.reboot_file@)
            }
            &&& r.default_path@ == "/usr/bin:/bin"@
            &&& r.default_shell@ == "/bin/sh"@
        }),
{
}

/// Is the path that of the variable, if it is set and not empty?
pub open spec fn takes(env: crate::crontab::EnvModel, name: Seq<char>, path: Seq<char>) -> bool {
    crate::crontab::env_value(env, name) matches Some(v) ==> (v.len() > 0 ==> path == v)
}

/// A user's crontab is the file with the user's name in the spool.
pub proof fn law_user_crontab(cfg: Config, user: &str, r: String)
    requires
        call_ensures(Config::user_crontab, (&cfg, user), r),
        cfg.spool_dir@.len() > 0,
        cfg.spool_dir@.last() != '/',
        user@.len() > 0 ==> user@[0] != '/',
    ensures
        r@ == cfg.spool_dir@ + seq!['/'] + user@,
{
    law_join(cfg.spool_dir@, user@);
}

} // verus!
