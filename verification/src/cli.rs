use vstd::prelude::*;

use crate::text::chars_of;

verus! {

/// Credentials from the environment: both the user name and the password
/// must be present and non-empty.
pub fn env_credentials_from(username: Option<String>, password: Option<String>) -> (r: Option<(String, String)>)
    ensures
        match (username, password) {
            (Some(u), Some(p)) => if u@.len() > 0 && p@.len() > 0 {
                r == Some((u, p))
            } else {
                r is None
            },
            _ => r is None,
        },
{
    match (username, password) {
        (Some(u), Some(p)) => {
            if chars_of(u.as_str()).len() > 0 && chars_of(p.as_str()).len() > 0 {
                Some((u, p))
            } else {
                None
            }
        },
        _ => None,
    }
}

/// The credentials a run uses: those from the environment override those of
/// the configuration file; without either the run cannot log in (`None`).
pub fn merge_credentials(
    from_file: Option<(String, String)>,
    from_env: Option<(String, String)>,
) -> (r: Option<(String, String)>)
    ensures
        r == match from_env {
            Some(e) => Some(e),
            None => from_file,
        },
{
    match from_env {
        Some(e) => Some(e),
        None => from_file,
    }
}

/// How a one-time password is obtained.
pub enum OtpPlan {
    /// Use this code.
    Use(String),
    /// Ask the user on the terminal.
    Prompt,
    /// A code is needed but nobody can be asked: tell the user to pass
    /// `--otp-code`.
    Fail,
}

/// Decides how to obtain the one-time password: a supplied code is always
/// used as is; a missing code is asked for when one is required, on an
/// interactive terminal only.
pub fn otp_plan(required: bool, otp_code: String, interactive: bool) -> (r: OtpPlan)
    ensures
        required && otp_code@.len() == 0 ==> (if interactive {
            r is Prompt
        } else {
            r is Fail
        }),
        !(required && otp_code@.len() == 0) ==> r == OtpPlan::Use(otp_code),
{
    if required && chars_of(otp_code.as_str()).len() == 0 {
        if interactive {
            OtpPlan::Prompt
        } else {
            OtpPlan::Fail
        }
    } else {
        OtpPlan::Use(otp_code)
    }
}

/// The error code with which the login service rejects a wrong one-time password.
pub open spec fn incorrect_otp_code() -> Seq<char> {
    seq!['E', '0', '5']
}

/// Whether a login error code means the one-time password was rejected.
pub fn is_incorrect_otp_code(code: &str) -> (r: bool)
    ensures
        r == (code@ == incorrect_otp_code()),
{
    let cs = chars_of(code);
    let e05 = vec!['E', '0', '5'];
    assert(e05@ =~= incorrect_otp_code());
    crate::text::chars_eq(&cs, &e05)
}

/// What to do after a failed Blackboard login.
pub enum LoginRecovery {
    /// Ask for a one-time password and log in again.
    PromptAndRetry,
    /// Report the login error.
    Fail,
}

/// After a failed Blackboard login: when no one-time password was given and
/// the service rejected the missing one, ask for it and retry; otherwise fail.
pub fn blackboard_login_recovery(otp_given: bool, otp_rejected: bool) -> (r: LoginRecovery)
    ensures
        (r is PromptAndRetry) == (!otp_given && otp_rejected),
{
    if !otp_given && otp_rejected {
        LoginRecovery::PromptAndRetry
    } else {
        LoginRecovery::Fail
    }
}

/// What to do after a failed portal login in the course-table command.
pub enum PortalRecovery {
    /// Try the Blackboard calendar; if that fails too, ask for a one-time
    /// password and log in to the portal again.
    FallbackThenPrompt,
    /// Try the Blackboard calendar; if that fails too, report the login error.
    FallbackThenFail,
    /// Report the login error.
    Fail,
}

/// After a failed portal login: without a one-time password the calendar
/// fallback is tried, followed by a prompt when the password was rejected;
/// with one the error is reported.
pub fn portal_login_recovery(otp_given: bool, otp_rejected: bool) -> (r: PortalRecovery)
    ensures
        otp_given ==> r is Fail,
        !otp_given && otp_rejected ==> r is FallbackThenPrompt,
        !otp_given && !otp_rejected ==> r is FallbackThenFail,
{
    if otp_given {
        PortalRecovery::Fail
    } else if otp_rejected {
        PortalRecovery::FallbackThenPrompt
    } else {
        PortalRecovery::FallbackThenFail
    }
}

/// The cache subcommands.
pub enum CacheCommands {
    Show,
    Clean,
}

/// Whether a cache command only reports the size (no subcommand means `show`).
pub fn cache_dry_run(command: &Option<CacheCommands>) -> (r: bool)
    ensures
        r == !(command matches Some(CacheCommands::Clean)),
{
    match command {
        Some(CacheCommands::Clean) => false,
        _ => true,
    }
}

/// The total of the first `n` file sizes.
pub open spec fn sum_sizes(sizes: Seq<u64>, n: nat) -> nat
    decreases n,
{
    if n == 0 || n > sizes.len() {
        0
    } else {
        sum_sizes(sizes, (n - 1) as nat) + sizes[n - 1] as nat
    }
}

proof fn lemma_sum_sizes_grows(sizes: Seq<u64>, i: nat, n: nat)
    requires
        i <= n <= sizes.len(),
    ensures
        sum_sizes(sizes, i) <= sum_sizes(sizes, n),
    decreases n - i,
{
    if i < n {
        lemma_sum_sizes_grows(sizes, i, (n - 1) as nat);
    }
}

/// The total size in bytes of the files found in the cache directory, or
/// `None` when it does not fit in 64 bits.
pub fn cache_total_bytes(sizes: &Vec<u64>) -> (r: Option<u64>)
    ensures
        match r {
            Some(t) => t == sum_sizes(sizes@, sizes@.len()),
            None => sum_sizes(sizes@, sizes@.len()) > u64::MAX,
        },
{
    let mut total: u64 = 0;
    let mut i: usize = 0;
    while i < sizes.len()
        invariant
            i <= sizes@.len(),
            total == sum_sizes(sizes@, i as nat),
        decreases sizes.len() - i,
    {
        match total.checked_add(sizes[i]) {
            Some(t) => total = t,
            None => {
                proof {
                    lemma_sum_sizes_grows(sizes@, (i + 1) as nat, sizes@.len());
                }
                return None;
            },
        }
        i += 1;
    }
    Some(total)
}

/// The action name reported by the cache command.
pub fn cache_action(dry_run: bool) -> (r: String)
    ensures
        r@ == if dry_run {
            "cache.show"@
        } else {
            "cache.clean"@
        },
{
    if dry_run {
        crate::text::string_from_chars(&chars_of("cache.show"))
    } else {
        crate::text::string_from_chars(&chars_of("cache.clean"))
    }
}

} // verus!
