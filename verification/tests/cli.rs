use pku3b::cli::{
    blackboard_login_recovery, cache_action, cache_dry_run, cache_total_bytes,
    env_credentials_from, is_incorrect_otp_code, merge_credentials, otp_plan,
    portal_login_recovery, CacheCommands, LoginRecovery, OtpPlan, PortalRecovery,
};
use pku3b::markdown_output;

#[test]
fn resolve_otp_code_returns_supplied_value_without_prompt() {
    match otp_plan(false, "123456".to_owned(), false) {
        OtpPlan::Use(code) => assert_eq!(code, "123456"),
        _ => panic!("a supplied code must be used"),
    }
    match otp_plan(true, "654321".to_owned(), false) {
        OtpPlan::Use(code) => assert_eq!(code, "654321"),
        _ => panic!("a supplied code must be used"),
    }
}

#[test]
fn otp_plan_prompts_only_on_a_terminal() {
    assert!(matches!(otp_plan(true, String::new(), true), OtpPlan::Prompt));
    assert!(matches!(otp_plan(true, String::new(), false), OtpPlan::Fail));
    match otp_plan(false, String::new(), false) {
        OtpPlan::Use(code) => assert_eq!(code, ""),
        _ => panic!("no code is needed"),
    }
}

#[test]
fn detects_incorrect_otp_error() {
    assert!(is_incorrect_otp_code("E05"));
    assert!(!is_incorrect_otp_code("E01"));
    assert!(!is_incorrect_otp_code(""));
}

#[test]
fn cache_result_fits_json_envelope() {
    let dry_run = cache_dry_run(&Some(CacheCommands::Show));
    let env = markdown_output::ok_item((cache_action(dry_run), dry_run, "/tmp/cache", 1024u64));
    assert_eq!(env.schema_version, "1");
    assert_eq!(env.ok, true);
    let item = env.item.unwrap();
    assert_eq!(item.0, "cache.show");
    assert_eq!(item.1, true);
}

#[test]
fn cache_commands_choose_dry_run() {
    assert!(cache_dry_run(&None));
    assert!(cache_dry_run(&Some(CacheCommands::Show)));
    assert!(!cache_dry_run(&Some(CacheCommands::Clean)));
    assert_eq!(cache_action(false), "cache.clean");
}

#[test]
fn cache_total_bytes_sums_or_reports_overflow() {
    assert_eq!(cache_total_bytes(&vec![]), Some(0));
    assert_eq!(cache_total_bytes(&vec![1000, 24]), Some(1024));
    assert_eq!(cache_total_bytes(&vec![u64::MAX, 1]), None);
}

#[test]
fn env_credentials_need_both_non_empty() {
    assert_eq!(
        env_credentials_from(Some("u".to_owned()), Some("p".to_owned())),
        Some(("u".to_owned(), "p".to_owned()))
    );
    assert_eq!(env_credentials_from(Some("u".to_owned()), Some(String::new())), None);
    assert_eq!(env_credentials_from(None, Some("p".to_owned())), None);
}

#[test]
fn environment_credentials_override_the_file() {
    let file = Some(("f".to_owned(), "fp".to_owned()));
    let env = Some(("e".to_owned(), "ep".to_owned()));
    assert_eq!(merge_credentials(file.clone(), env.clone()), env);
    assert_eq!(merge_credentials(file.clone(), None), file);
    assert_eq!(merge_credentials(None, None), None);
}

#[test]
fn login_recovery_prompts_only_for_a_missing_rejected_code() {
    assert!(matches!(blackboard_login_recovery(false, true), LoginRecovery::PromptAndRetry));
    assert!(matches!(blackboard_login_recovery(true, true), LoginRecovery::Fail));
    assert!(matches!(blackboard_login_recovery(false, false), LoginRecovery::Fail));
    assert!(matches!(portal_login_recovery(true, true), PortalRecovery::Fail));
    assert!(matches!(portal_login_recovery(false, true), PortalRecovery::FallbackThenPrompt));
    assert!(matches!(portal_login_recovery(false, false), PortalRecovery::FallbackThenFail));
}
