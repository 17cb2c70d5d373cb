//! Checks of the sign-in state machine and sign-out decisions.

use gel_cli::cloud::LoginAction;
use gel_cli::cloud::LoginEvent;
use gel_cli::cloud::LoginState;
use gel_cli::cloud::LogoutOutcome;
use gel_cli::cloud::ProfileAction;
use gel_cli::cloud::ProfileScan;
use gel_cli::cloud::find_project_dirs;
use gel_cli::cloud::login;
use gel_cli::cloud::login_step;
use gel_cli::cloud::logout_outcome;
use gel_cli::cloud::logout_profile_action;
use gel_cli::cloud::make_project_warning;
use gel_cli::cloud::should_skip_entry;

#[test]
fn already_signed_in_short_circuits() {
    let (s, a) = login();
    assert!(matches!(a, LoginAction::GetUser));
    let (s2, a2) = login_step(s, LoginEvent::UserOk("alice".to_string()));
    match (s2, a2) {
        (LoginState::Done(m), LoginAction::Finish(m2)) => {
            assert_eq!(m, "Already logged in as alice.");
            assert_eq!(m2, m);
        },
        _ => panic!("expected an immediate finish"),
    }
}

#[test]
fn full_sign_in_round() {
    let (s, _) = login();
    let (s, a) = login_step(s, LoginEvent::Unauthorized);
    assert!(matches!(a, LoginAction::CreateSession));
    let (s, a) = login_step(
        s,
        LoginEvent::SessionCreated("sid".to_string(), "auth/x".to_string()),
    );
    match &a {
        LoginAction::OpenAndPoll(link) => assert_eq!(link, "auth/x"),
        _ => panic!("expected the browser link"),
    }
    let (s, a) = login_step(s, LoginEvent::PollPending);
    assert!(matches!(a, LoginAction::PollAgain));
    let (s, a) = login_step(s, LoginEvent::RequestFailed("net down".to_string()));
    assert!(matches!(a, LoginAction::PollAgain));
    let (s, a) = login_step(s, LoginEvent::PollToken("shortlived".to_string()));
    match &a {
        LoginAction::StoreKey(k) => assert_eq!(k, "shortlived"),
        _ => panic!("expected the key exchange"),
    }
    let (s, a) = login_step(s, LoginEvent::KeyStored);
    assert!(matches!(a, LoginAction::GetUser));
    let (_, a) = login_step(s, LoginEvent::UserOk("alice".to_string()));
    match a {
        LoginAction::Finish(m) => {
            assert_eq!(m, "Successfully logged in to EdgeDB Cloud as alice.")
        },
        _ => panic!("expected the success report"),
    }
}

#[test]
fn sign_in_times_out() {
    let (s, _) = login();
    let (s, _) = login_step(s, LoginEvent::Unauthorized);
    let (s, _) = login_step(
        s,
        LoginEvent::SessionCreated("sid".to_string(), "auth/x".to_string()),
    );
    let (s, a) = login_step(s, LoginEvent::TimedOut);
    assert!(matches!(s, LoginState::Failed(_)));
    match a {
        LoginAction::Abort(m) => {
            assert_eq!(m, "Authentication expected to complete in 600s.")
        },
        _ => panic!("expected an abort"),
    }
}

#[test]
fn broken_and_empty_profiles_are_dropped() {
    let entries = vec![
        ProfileScan {
            profile: "default".to_string(),
            projects: vec![Some("/a".to_string()), None, Some("/b".to_string())],
        },
        ProfileScan { profile: "empty".to_string(), projects: vec![None] },
        ProfileScan { profile: "bare".to_string(), projects: Vec::new() },
        ProfileScan { profile: "other".to_string(), projects: vec![Some("/c".to_string())] },
    ];
    let kept = find_project_dirs(entries);
    assert_eq!(kept.len(), 2);
    assert_eq!(kept[0].profile, "default");
    assert_eq!(kept[0].projects, vec!["/a", "/b"]);
    assert_eq!(kept[1].profile, "other");
    assert_eq!(kept[1].projects, vec!["/c"]);
}

#[test]
fn hidden_entries_are_skipped() {
    let hidden = ".DS_Store".to_string();
    let normal = "default".to_string();
    let empty = "".to_string();
    assert!(should_skip_entry(Some(&hidden)));
    assert!(!should_skip_entry(Some(&normal)));
    assert!(should_skip_entry(Some(&empty)));
    assert!(should_skip_entry(None));
}

#[test]
fn profiles_in_use_need_force_or_consent() {
    assert_eq!(logout_profile_action(false, true, false, false), ProfileAction::Remove);
    assert_eq!(
        logout_profile_action(true, true, true, false),
        ProfileAction::RemoveWithWarning
    );
    assert_eq!(
        logout_profile_action(true, true, false, false),
        ProfileAction::SkipWithWarning
    );
    assert_eq!(logout_profile_action(true, false, false, true), ProfileAction::Remove);
    assert_eq!(logout_profile_action(true, false, false, false), ProfileAction::Skip);
}

#[test]
fn sign_out_verdicts() {
    assert_eq!(logout_outcome(false, true), LogoutOutcome::Clean);
    assert_eq!(logout_outcome(false, false), LogoutOutcome::Clean);
    assert_eq!(logout_outcome(true, true), LogoutOutcome::PartialSuccess);
    assert_eq!(logout_outcome(true, false), LogoutOutcome::NeedsForce);
}

#[test]
fn project_warning_lists_paths() {
    let projects = vec!["/one".to_string(), "/two".to_string()];
    assert_eq!(
        make_project_warning("default", &projects),
        "EdgeDB Cloud profile \"default\" is still used by the following projects:\n    /one\n    /two"
    );
}

#[test]
fn project_warning_escapes_odd_profile_names() {
    let projects = vec!["/one".to_string()];
    assert_eq!(
        make_project_warning("we\"ird\\x", &projects),
        "EdgeDB Cloud profile \"we\\\"ird\\\\x\" is still used by the following projects:\n    /one"
    );
}
