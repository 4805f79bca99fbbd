use runde::updater::{
    after_install_step, asset_name_for_platform, check_for_update, is_newer, latest_release_url,
    release_published, user_agent, GhAsset, GhRelease, InstallNext, InstallStep, MissingAsset,
    UpdateInfo, PROGRAM_MODE,
};

fn asset(name: &str, url: &str) -> GhAsset {
    GhAsset { name: name.to_string(), browser_download_url: url.to_string() }
}

fn release(tag: &str) -> GhRelease {
    GhRelease {
        tag_name: tag.to_string(),
        assets: vec![
            asset("runde-windows-x86_64.exe", "https://example.com/w"),
            asset("runde-linux-x86_64", "https://example.com/l1"),
            asset("runde-linux-x86_64", "https://example.com/l2"),
        ],
    }
}

fn found(r: Result<Option<UpdateInfo>, MissingAsset>) -> Option<UpdateInfo> {
    match r {
        Ok(found) => found,
        Err(error) => panic!("{}", error.message()),
    }
}

#[test]
fn a_greater_component_is_newer() {
    assert!(is_newer("0.1.9", "0.2.0"));
    assert!(is_newer("0.9.0", "0.10.0"));
    assert!(is_newer("1.2.3", "2.0"));
    assert!(!is_newer("0.2.0", "0.1.9"));
    assert!(!is_newer("2.0", "1.2.3"));
}

#[test]
fn a_version_is_not_newer_than_itself() {
    for v in ["", "0", "1.2.3", "v1.2.3"] {
        assert!(!is_newer(v, v));
    }
}

#[test]
fn newer_goes_one_way_and_on() {
    assert!(is_newer("1.0", "1.1") && is_newer("1.1", "1.2") && is_newer("1.0", "1.2"));
    assert!(!is_newer("1.1", "1.0"));
}

#[test]
fn zeros_behind_make_no_difference() {
    assert!(!is_newer("1.2", "1.2.0"));
    assert!(!is_newer("1.2.0.0", "1.2"));
    assert!(is_newer("1.2", "1.2.0.1"));
}

#[test]
fn letters_in_front_make_no_difference() {
    assert!(is_newer("v1.0", "1.1"));
    assert!(is_newer("1.0", "vv1.1"));
    assert!(!is_newer("v1.1", "1.1"));
}

#[test]
fn components_that_are_no_numbers_count_as_zero() {
    assert!(!is_newer("1.0.0", "1.0.0-beta"));
    assert!(!is_newer("0", "beta"));
    assert!(is_newer("1.x", "1.1"));
    assert!(!is_newer("0", "18446744073709551616"));
    assert!(is_newer("0", "18446744073709551615"));
    assert!(is_newer("1.0", "1.+1"));
}

#[test]
fn each_platform_has_its_file() {
    assert_eq!(asset_name_for_platform("windows"), "runde-windows-x86_64.exe");
    assert_eq!(asset_name_for_platform("linux"), "runde-linux-x86_64");
    assert_eq!(asset_name_for_platform("macos"), "runde-unknown");
    assert_eq!(asset_name_for_platform(""), "runde-unknown");
}

#[test]
fn addresses_and_names() {
    assert_eq!(
        latest_release_url(),
        "https://api.github.com/repos/elyscence/runde/releases/latest"
    );
    assert_eq!(user_agent("0.1.0"), "runde-updater/0.1.0");
    assert!(!release_published(404));
    assert!(release_published(200));
    assert!(release_published(500));
    assert_eq!(PROGRAM_MODE, 0o755);
}

#[test]
fn no_release_is_no_update() {
    assert!(found(check_for_update("0.1.0", "linux", None)).is_none());
}

#[test]
fn an_old_release_is_no_update() {
    assert!(found(check_for_update("0.2.0", "linux", Some(&release("v0.2.0")))).is_none());
    assert!(found(check_for_update("0.3.0", "macos", Some(&release("v0.2.0")))).is_none());
}

#[test]
fn a_new_release_is_offered_with_its_first_file() {
    let info = found(check_for_update("0.1.0", "linux", Some(&release("v0.2.0")))).unwrap();
    assert_eq!(
        info,
        UpdateInfo {
            version: "0.2.0".to_string(),
            download_url: "https://example.com/l1".to_string(),
            asset_name: "runde-linux-x86_64".to_string(),
        }
    );
}

#[test]
fn an_installed_release_is_not_offered_again() {
    let r = release("v0.2.0");
    let info = found(check_for_update("0.1.0", "windows", Some(&r))).unwrap();
    assert!(found(check_for_update(&info.version, "windows", Some(&r))).is_none());
}

#[test]
fn a_new_release_without_a_file_is_an_error() {
    match check_for_update("0.1.0", "macos", Some(&release("v0.2.0"))) {
        Err(error) => assert_eq!(
            error.message(),
            "Ассет 'runde-unknown' не найден в релизе v0.2.0"
        ),
        Ok(_) => panic!("there is no such file"),
    }
}

fn install(fails: &[InstallStep], unix: bool) -> (Vec<InstallStep>, bool) {
    let mut step = InstallStep::Download;
    let mut taken = vec![step];
    loop {
        match after_install_step(step, !fails.contains(&step), unix) {
            InstallNext::Run(next) => {
                step = next;
                taken.push(step);
            }
            InstallNext::Installed => return (taken, true),
            InstallNext::Failed => return (taken, false),
        }
    }
}

#[test]
fn installation_takes_its_steps_in_order() {
    let unix = vec![
        InstallStep::Download,
        InstallStep::Save,
        InstallStep::ReadPermissions,
        InstallStep::SetPermissions,
        InstallStep::Replace,
        InstallStep::CleanUp,
    ];
    assert_eq!(install(&[], true), (unix, true));
    let other = vec![
        InstallStep::Download,
        InstallStep::Save,
        InstallStep::Replace,
        InstallStep::CleanUp,
    ];
    assert_eq!(install(&[], false), (other, true));
}

#[test]
fn installation_stops_at_a_failure() {
    for (step, n) in [
        (InstallStep::Download, 1),
        (InstallStep::Save, 2),
        (InstallStep::ReadPermissions, 3),
        (InstallStep::SetPermissions, 4),
        (InstallStep::Replace, 5),
    ] {
        let (taken, ok) = install(&[step], true);
        assert!(!ok);
        assert_eq!(taken.len(), n);
    }
}

#[test]
fn a_file_left_behind_is_no_failure() {
    assert!(install(&[InstallStep::CleanUp], true).1);
    assert!(install(&[InstallStep::ReadPermissions, InstallStep::CleanUp], false).1);
}
