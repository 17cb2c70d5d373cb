//! Checks of the WSL command planning and path conversion.

use gel_cli::windows::NoDistribution;
use gel_cli::windows::PathError;
use gel_cli::windows::Service;
use gel_cli::windows::StartAction;
use gel_cli::windows::WinComponent;
use gel_cli::windows::Wsl;
use gel_cli::windows::create_service;
use gel_cli::windows::credentials_linux;
use gel_cli::windows::daemon_start;
use gel_cli::windows::external_status;
use gel_cli::windows::get_instance_data_dir;
use gel_cli::windows::get_instance_info;
use gel_cli::windows::info;
use gel_cli::windows::install;
use gel_cli::windows::is_in_wsl;
use gel_cli::windows::is_wrapped;
use gel_cli::windows::logs;
use gel_cli::windows::path_to_linux;
use gel_cli::windows::read_jws_key;
use gel_cli::windows::reset_password;
use gel_cli::windows::restart;
use gel_cli::windows::restart_service;
use gel_cli::windows::service_file;
use gel_cli::windows::service_files;
use gel_cli::windows::service_status;
use gel_cli::windows::shell_escape_unix;
use gel_cli::windows::start;
use gel_cli::windows::start_service;
use gel_cli::windows::status;
use gel_cli::windows::StatusAction;
use gel_cli::windows::stop;
use gel_cli::windows::stop_and_disable;
use gel_cli::windows::stop_service;
use gel_cli::windows::UninstallAction;
use gel_cli::windows::uninstall;
use gel_cli::windows::upgrade;
use gel_cli::windows::extension_install;
use gel_cli::windows::extension_uninstall;

fn wsl() -> Wsl {
    Wsl { distribution: "EdgeDB.WSL.1".to_string() }
}

#[test]
fn edgedb_command_carries_container_setup() {
    let n = wsl().edgedb(None);
    assert_eq!(n.command, "wsl");
    assert_eq!(n.marker, "edgedb");
    assert_eq!(
        n.args,
        vec![
            "--user",
            "edgedb",
            "--distribution",
            "EdgeDB.WSL.1",
            "_EDGEDB_FROM_WINDOWS=1",
            "/usr/bin/edgedb"
        ]
    );
    assert!(n.no_proxy);
}

#[test]
fn log_environment_is_forwarded() {
    let lev = "debug".to_string();
    let n = wsl().edgedb(Some(&lev));
    assert!(n.args.contains(&"RUST_LOG=debug".to_string()));
}

#[test]
fn shell_escaping_quotes_unsafe_words() {
    assert_eq!(shell_escape_unix("plain-word_1"), "plain-word_1");
    assert_eq!(shell_escape_unix("a b"), "'a b'");
    assert_eq!(shell_escape_unix("it's"), "'it'\\''s'");
    assert_eq!(shell_escape_unix(""), "''");
}

#[test]
fn copy_out_escapes_both_paths() {
    let cmd = wsl().copy_out_command("/home/edgedb/x.json", "/mnt/c/cred file.json");
    assert_eq!(cmd, "cp /home/edgedb/x.json '/mnt/c/cred file.json'");
}

#[test]
fn credentials_path_embeds_instance() {
    assert_eq!(
        credentials_linux("main"),
        "/home/edgedb/.config/edgedb/credentials/main.json"
    );
}

#[test]
fn service_files_name_the_startup_script() {
    let f = service_file("C:\\Startup", "main");
    assert_eq!(f, "C:\\Startup\\edgedb-server-main.cmd");
    assert_eq!(service_files("C:\\Startup", "main"), vec![f]);
}

#[test]
fn create_service_plans_start_and_script() {
    let p = create_service(&wsl(), "main", "C:\\Startup", None);
    assert_eq!(
        p.file_contents,
        "wsl --distribution EdgeDB.WSL.1 --user edgedb /usr/bin/edgedb instance start -I main"
    );
    assert_eq!(p.file_path, "C:\\Startup\\edgedb-server-main.cmd");
    assert!(p.start.args.ends_with(&[
        "instance".to_string(),
        "start".to_string(),
        "-I".to_string(),
        "main".to_string()
    ]));
}

#[test]
fn daemon_start_targets_the_instance() {
    let n = daemon_start(&wsl(), "main", None);
    assert!(n.args.ends_with(&[
        "instance".to_string(),
        "start".to_string(),
        "-I".to_string(),
        "main".to_string()
    ]));
}

#[test]
fn true_services_are_refused() {
    let msg = "running as a service is not yet supported on Windows";
    assert_eq!(stop_and_disable("x").unwrap_err(), msg);
    assert_eq!(start_service("x").unwrap_err(), msg);
    assert_eq!(stop_service("x").unwrap_err(), msg);
    assert_eq!(restart_service("x").unwrap_err(), msg);
    assert_eq!(external_status("x").unwrap_err(), msg);
    let Service::Inactive(e) = service_status("x");
    assert_eq!(e, msg);
    let _ = NoDistribution;
}

#[test]
fn wrapped_detection_defaults_to_false() {
    assert!(is_wrapped(Some(Some(true))));
    assert!(!is_wrapped(Some(Some(false))));
    assert!(!is_wrapped(Some(None)));
    assert!(!is_wrapped(None));
}

#[test]
fn wsl_detection_reads_kernel_string() {
    let yes = "Linux version 4.4.0-Microsoft".to_string();
    let no = "Linux version 6.1.0".to_string();
    assert!(is_in_wsl(Some(&yes)));
    assert!(!is_in_wsl(Some(&no)));
    assert!(!is_in_wsl(None));
}

#[test]
fn server_ops_need_a_distribution() {
    let opts: Vec<String> = vec!["--nightly".to_string()];
    let n = install(&wsl(), &opts, None);
    assert!(n.args.contains(&"install".to_string()));
    assert!(info(None, &opts, None).is_err());
    assert!(info(Some(&wsl()), &opts, None).is_ok());
    // uninstalling with no distribution succeeds with only a warning
    assert!(matches!(uninstall(None, &opts, None), UninstallAction::WarnMissing));
    match uninstall(Some(&wsl()), &opts, None) {
        UninstallAction::Run(u) => assert!(u.args.contains(&"uninstall".to_string())),
        UninstallAction::WarnMissing => panic!("distribution was given"),
    }
}

#[test]
fn instance_ops_plan_commands() {
    let opts: Vec<String> = Vec::new();
    let (n, copy) = upgrade(&wsl(), &opts, "main", None);
    assert!(n.args.contains(&"upgrade".to_string()));
    assert_eq!(copy, "/home/edgedb/.config/edgedb/credentials/main.json");
    assert!(restart(Some(&wsl()), &opts, None).is_ok());
    assert!(restart(None, &opts, None).is_err());
    assert!(logs(Some(&wsl()), &opts, None).is_ok());
    let (file, n2) = stop(Some(&wsl()), &opts, "main", "C:\\Startup", None).unwrap();
    assert_eq!(file, "C:\\Startup\\edgedb-server-main.cmd");
    assert!(n2.args.contains(&"stop".to_string()));
    match status(Some(&wsl()), &opts, None) {
        StatusAction::Run(n3) => assert!(n3.args.contains(&"status".to_string())),
        StatusAction::NoDistribution => panic!("distribution was given"),
    }
    let (rp, copy2) = match reset_password(Some(&wsl()), &opts, "main", None) {
        Ok(p) => p,
        Err(e) => panic!("{e}"),
    };
    assert!(rp.args.contains(&"reset-password".to_string()));
    assert_eq!(copy2, "/home/edgedb/.config/edgedb/credentials/main.json");
    match start(Some(&wsl()), &opts, "main", true, "C:\\Startup", None).unwrap() {
        StartAction::Foreground(n4) => assert!(n4.args.contains(&"start".to_string())),
        StartAction::Background(_) => panic!("foreground requested"),
    }
    let xi = extension_install(&wsl(), &opts, None);
    assert!(xi.args.contains(&"install".to_string()));
    let xu = extension_uninstall(&wsl(), &opts, None);
    assert!(xu.args.contains(&"uninstall".to_string()));
}

#[test]
fn data_dir_and_key_files() {
    assert_eq!(
        get_instance_data_dir("main", false, None),
        "/home/edgedb/.local/share/edgedb/data/main/"
    );
    let dev = "/custom/".to_string();
    assert_eq!(get_instance_data_dir("_localdev", true, Some(&dev)), "/custom/");
    assert_eq!(
        get_instance_data_dir("_localdev", true, None),
        "/home/edgedb/.local/share/edgedb/_localdev/"
    );
    let dir = "/d/";
    assert_eq!(read_jws_key(dir, true, true).unwrap(), "/d/edbjwskeys.pem");
    assert_eq!(read_jws_key(dir, false, true).unwrap(), "/d/edbjwskeys.json");
    assert!(read_jws_key(dir, false, false).is_none());
    assert_eq!(
        get_instance_info("main"),
        "/home/edgedb/.local/share/edgedb/data/main/instance_info.json"
    );
}

#[test]
fn windows_paths_map_under_mnt() {
    let comps = vec![
        WinComponent::Disk('C'),
        WinComponent::Root,
        WinComponent::Normal("Users".to_string()),
        WinComponent::Normal("me".to_string()),
    ];
    assert_eq!(path_to_linux(&comps, true).unwrap(), "/mnt/c/Users/me");
}

#[test]
fn path_conversion_rejects_odd_shapes() {
    let comps = vec![WinComponent::Disk('C'), WinComponent::Root];
    assert_eq!(path_to_linux(&comps, false).unwrap_err(), PathError::NotAbsolute);
    let cur = vec![WinComponent::Disk('C'), WinComponent::Cur];
    assert_eq!(path_to_linux(&cur, true).unwrap_err(), PathError::CurDir);
    let parent = vec![WinComponent::Disk('C'), WinComponent::Parent];
    assert_eq!(path_to_linux(&parent, true).unwrap_err(), PathError::ParentDir);
    let pre = vec![WinComponent::OtherPrefix];
    assert_eq!(path_to_linux(&pre, true).unwrap_err(), PathError::UnsupportedPrefix);
    let disk = vec![WinComponent::Disk('7')];
    assert_eq!(path_to_linux(&disk, true).unwrap_err(), PathError::NonAlphabeticDisk);
}

use gel_cli::windows::CachePlan;
use gel_cli::windows::CliPackage;
use gel_cli::windows::DestroyStep;
use gel_cli::windows::PickError;
use gel_cli::windows::Semver;
use gel_cli::windows::WslInfo;
use gel_cli::windows::certs_expired;
use gel_cli::windows::destroy_found;
use gel_cli::windows::destroy_status;
use gel_cli::windows::linux_cli_platform;
use gel_cli::windows::pick_cli_package;
use gel_cli::windows::plan_cached_distro;
use gel_cli::windows::utf16_contains;
use gel_cli::windows::wsl_check_cli;

fn ver(major: u64, minor: u64, patch: u64) -> Semver {
    Semver { major, minor, patch }
}

fn cached(last: Option<Semver>, certs: u64) -> WslInfo {
    WslInfo {
        distribution: "EdgeDB.WSL.1".to_string(),
        last_checked_version: last,
        cli_version: ver(5, 0, 0),
        certs_timestamp: certs,
    }
}

#[test]
fn semver_ordering_is_lexicographic() {
    assert!(ver(1, 2, 3).lt(&ver(2, 0, 0)));
    assert!(ver(1, 2, 3).lt(&ver(1, 3, 0)));
    assert!(ver(1, 2, 3).lt(&ver(1, 2, 4)));
    assert!(!ver(1, 2, 3).lt(&ver(1, 2, 3)));
    assert!(!ver(2, 0, 0).lt(&ver(1, 9, 9)));
}

#[test]
fn cli_check_compares_recorded_version() {
    assert!(!wsl_check_cli(&cached(Some(ver(5, 1, 0)), 0), &ver(5, 1, 0)));
    assert!(wsl_check_cli(&cached(Some(ver(5, 0, 0)), 0), &ver(5, 1, 0)));
    assert!(wsl_check_cli(&cached(None, 0), &ver(5, 1, 0)));
}

#[test]
fn certificate_refresh_window() {
    let month = 30 * 86400;
    assert!(!certs_expired(1_000_000, month, 1_000_000 + month));
    assert!(certs_expired(1_000_000, month, 1_000_000 + month + 1));
    assert!(!certs_expired(u64::MAX - 5, month, u64::MAX));
}

#[test]
fn fresh_cache_is_reused() {
    let month = 30 * 86400;
    let info = cached(Some(ver(5, 1, 0)), 1_000_000);
    match plan_cached_distro(Some(&info), true, &ver(5, 1, 0), month, 1_000_100) {
        CachePlan::UseCached(d) => assert_eq!(d, "EdgeDB.WSL.1"),
        _ => panic!("cache was fresh"),
    }
}

#[test]
fn stale_cli_refreshes_but_keeps_certs() {
    let month = 30 * 86400;
    let info = cached(Some(ver(5, 0, 0)), 1_000_000);
    match plan_cached_distro(Some(&info), true, &ver(5, 1, 0), month, 1_000_100) {
        CachePlan::Refresh { distribution, update_cli, certs_timestamp } => {
            assert_eq!(distribution, "EdgeDB.WSL.1");
            assert!(update_cli);
            assert_eq!(certs_timestamp, Some(1_000_000));
        },
        _ => panic!("the CLI was stale"),
    }
}

#[test]
fn missing_registration_rebuilds() {
    let info = cached(Some(ver(5, 1, 0)), 1_000_000);
    assert!(matches!(
        plan_cached_distro(Some(&info), false, &ver(5, 1, 0), 1, 2),
        CachePlan::Rebuild
    ));
    assert!(matches!(plan_cached_distro(None, true, &ver(5, 1, 0), 1, 2), CachePlan::Rebuild));
}

#[test]
fn package_matching_own_version_wins() {
    let pkgs = vec![
        CliPackage { version: ver(5, 2, 0), url: "a".to_string() },
        CliPackage { version: ver(5, 1, 0), url: "b".to_string() },
    ];
    assert_eq!(pick_cli_package(&pkgs, &ver(5, 1, 0)).unwrap(), 1);
}

#[test]
fn newest_package_fills_in() {
    let pkgs = vec![
        CliPackage { version: ver(5, 0, 0), url: "a".to_string() },
        CliPackage { version: ver(5, 3, 0), url: "b".to_string() },
        CliPackage { version: ver(5, 2, 0), url: "c".to_string() },
    ];
    assert_eq!(pick_cli_package(&pkgs, &ver(5, 1, 0)).unwrap(), 1);
}

#[test]
fn old_or_empty_repositories_fail() {
    let pkgs = vec![CliPackage { version: ver(4, 9, 0), url: "a".to_string() }];
    assert_eq!(pick_cli_package(&pkgs, &ver(5, 1, 0)).unwrap_err(), PickError::NewestTooOld);
    assert_eq!(
        pick_cli_package(&Vec::new(), &ver(5, 1, 0)).unwrap_err(),
        PickError::NoPackages
    );
}

#[test]
fn cli_platform_names_musl_triple() {
    assert_eq!(linux_cli_platform("x86_64"), "x86_64-unknown-linux-musl");
}

#[test]
fn destroy_interprets_exit_codes() {
    assert!(matches!(destroy_status(None, 8), DestroyStep::Interrupted));
    assert!(matches!(destroy_status(Some(8), 8), DestroyStep::NotFound));
    assert!(matches!(destroy_status(Some(0), 8), DestroyStep::Destroyed));
    assert!(matches!(destroy_status(Some(3), 8), DestroyStep::Exit(3)));
    assert!(destroy_found(false, true, 0));
    assert!(destroy_found(false, false, 2));
    assert!(!destroy_found(false, false, 0));
}

#[test]
fn utf16_search_decodes_tool_output() {
    let text = "wsl --import <Distro>";
    let bytes: Vec<u8> = text.encode_utf16().flat_map(|u| u.to_le_bytes()).collect();
    assert!(utf16_contains(&bytes, "--import"));
    assert!(!utf16_contains(&bytes, "--export"));
    // an unpaired surrogate decodes to the replacement character
    let lone: Vec<u8> = vec![0x00, 0xd8, b'a', 0x00];
    assert!(utf16_contains(&lone, "\u{FFFD}a"));
}

use gel_cli::windows::ListReport;
use gel_cli::windows::list_report;
use gel_cli::windows::path_to_windows;

#[test]
fn unix_paths_map_onto_the_share() {
    let comps = vec![
        WinComponent::Root,
        WinComponent::Normal("home".to_string()),
        WinComponent::Normal("edgedb".to_string()),
    ];
    assert_eq!(
        path_to_windows(&comps).unwrap(),
        "\\\\WSL$\\EdgeDB.WSL.1\\home\\edgedb"
    );
    let cur = vec![WinComponent::Cur];
    assert_eq!(path_to_windows(&cur).unwrap_err(), PathError::CurDir);
    let disk = vec![WinComponent::Disk('c')];
    assert_eq!(path_to_windows(&disk).unwrap_err(), PathError::PrefixInUnixPath);
}

#[test]
fn listings_report_by_content_and_format() {
    assert_eq!(
        list_report(true, true, true, false, false, false, false),
        ListReport::ErrorsOnly
    );
    assert_eq!(
        list_report(true, true, false, false, false, true, false),
        ListReport::EmptyJson
    );
    assert_eq!(
        list_report(true, true, false, false, false, false, false),
        ListReport::EmptyNotice
    );
    assert_eq!(
        list_report(true, true, false, false, false, false, true),
        ListReport::EmptyQuiet
    );
    assert_eq!(
        list_report(false, true, false, true, false, false, false),
        ListReport::Debug
    );
    assert_eq!(
        list_report(false, false, false, false, true, false, false),
        ListReport::Extended
    );
    assert_eq!(
        list_report(false, false, false, false, false, true, false),
        ListReport::Json
    );
    assert_eq!(
        list_report(false, false, false, false, false, false, false),
        ListReport::Table
    );
}

use gel_cli::windows::ListVersionsAction;
use gel_cli::windows::list_versions;

#[test]
fn version_listing_needs_distribution_or_json() {
    let opts: Vec<String> = Vec::new();
    match list_versions(Some(&wsl()), &opts, false, None) {
        ListVersionsAction::Run(n) => assert!(n.args.contains(&"list-versions".to_string())),
        _ => panic!("distribution was given"),
    }
    assert!(matches!(
        list_versions(None, &opts, true, None),
        ListVersionsAction::PrintEmptyJson
    ));
    assert!(matches!(
        list_versions(None, &opts, false, None),
        ListVersionsAction::WarnMissing
    ));
}
