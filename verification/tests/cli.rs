use plm::cli::{
    build_manifest, elapsed_label, install_step, license_choice, license_name, log_summary, login_step,
    manifest_path, InstallStep,
    message_text, prompter_level, proto_lock_path, record_install, tracing_level,
    validate_lib_name, Init, License, LogLevel, LoginFailure, LoginStep, Manifest, MessageType,
};
use plm::lock::{Dependency as LockedDependency, ProtoLock};
use plm::ppm::{ppm_manifest, progress_tick};

#[test]
fn library_names() {
    assert!(validate_lib_name("my-lib_name").is_ok());
    assert!(validate_lib_name("@scope/my-lib").is_ok());
    assert!(validate_lib_name("").is_ok());
    assert_eq!(
        validate_lib_name("my/lib"),
        Err("Library name must consist of ASCII alphabetic characters, dash, or lower dash".to_string())
    );
    assert_eq!(
        validate_lib_name("@scope/lib1"),
        Err("Library name must consist of ASCII alphabetic characters, dash, lower dash, or forward slash".to_string())
    );
    assert!(validate_lib_name("lib2").is_err());
}

fn empty_init() -> Init {
    Init {
        library_name: None,
        src_dir: None,
        description: None,
        version: None,
        dependencies: None,
        license: None,
        exclude: None,
    }
}

#[test]
fn init_manifest_defaults() {
    let m = build_manifest(&empty_init(), "proj".to_string(), "MIT".to_string());
    assert_eq!(m.name, "proj");
    assert_eq!(m.version, "0.0.1");
    assert_eq!(m.description, "Awesome Protobuf Package");
    assert_eq!(m.src_dir, "");
    assert!(m.exclude.is_empty());
}

#[test]
fn init_manifest_options() {
    let mut init = empty_init();
    init.version = Some("1.2.3".to_string());
    init.src_dir = Some("protos".to_string());
    init.exclude = Some("vendor,tmp".to_string());
    let m = build_manifest(&init, "p".to_string(), license_name(License::APACHE2).to_string());
    assert_eq!(m.license, "APACHE-2.0");
    assert_eq!(m.version, "1.2.3");
    assert_eq!(m.src_dir, "protos");
    assert_eq!(m.exclude, vec!["vendor".to_string(), "tmp".to_string()]);
}

#[test]
fn licenses() {
    assert_eq!(license_name(License::MIT), "MIT");
    assert_eq!(license_name(License::GPL), "GPL-3.0");
    assert_eq!(license_name(License::UNLICENSE), "Unlicense");
    assert_eq!(license_choice(2), "APACHE-2.0");
}

#[test]
fn manifest_dependencies_replace_versions() {
    let mut m: Manifest = ppm_manifest("p".to_string(), "MIT".to_string());
    assert_eq!(m.src_dir, "protos");
    m.add_dependency("a".to_string(), "1.0.0".to_string());
    m.add_dependency("b".to_string(), "2.0.0".to_string());
    m.add_dependency("a".to_string(), "1.1.0".to_string());
    assert_eq!(
        m.dependencies,
        vec![("a".to_string(), "1.1.0".to_string()), ("b".to_string(), "2.0.0".to_string())]
    );
}

#[test]
fn project_paths() {
    assert_eq!(proto_lock_path("/p"), "/p/proto-lock.json");
    assert_eq!(manifest_path("/p"), "/p/proto-package.json");
}

#[test]
fn log_levels() {
    assert!(tracing_level(0) == LogLevel::Info);
    assert!(tracing_level(1) == LogLevel::Debug);
    assert!(tracing_level(7) == LogLevel::Trace);
    assert!(prompter_level(2, true) == LogLevel::Off);
    assert!(prompter_level(2, false) == LogLevel::Trace);
    assert!(prompter_level(3, false) == LogLevel::Info);
}

#[test]
fn labels_and_messages() {
    assert_eq!(elapsed_label("Process", 250, 0), "Process took 250ms");
    assert_eq!(elapsed_label("Process", 2500, 2), "Process took 2s");
    assert_eq!(message_text(&MessageType::Task, 1, 6, "go"), "[1/6] go");
    assert_eq!(message_text(&MessageType::Error, 0, 0, "bad"), "> [ERROR]: bad");
    assert_eq!(message_text(&MessageType::Normal, 0, 0, "x"), "x");
}

#[test]
fn install_is_recorded_in_lock_and_manifest() {
    let mut lock = ProtoLock::new();
    let mut m = ppm_manifest("proj".to_string(), "MIT".to_string());
    m.add_dependency("lib".to_string(), "0.1.0".to_string());
    let deps = vec![LockedDependency { name: "base".to_string(), version: "1.0.0".to_string() }];
    assert!(record_install(&mut lock, &mut m, "lib".to_string(), "0.2.0".to_string(), deps).is_ok());
    assert_eq!(lock.libraries.len(), 1);
    assert_eq!(lock.libraries[0].name, "lib");
    assert_eq!(lock.libraries[0].version, "0.2.0");
    assert_eq!(lock.libraries[0].dependencies.len(), 1);
    assert_eq!(m.dependencies, vec![("lib".to_string(), "0.2.0".to_string())]);
}

#[test]
fn login_answers() {
    assert!(matches!(login_step(Ok("jwt".to_string())), LoginStep::StoreToken(t) if t == "jwt"));
    assert!(matches!(
        login_step(Err((LoginFailure::NotFound, "username not exists".to_string()))),
        LoginStep::CreateUser(m) if m == "username not exists"
    ));
    assert!(matches!(
        login_step(Err((LoginFailure::Unauthenticated, "invalid password".to_string()))),
        LoginStep::Report(m) if m == "invalid password"
    ));
    assert!(matches!(
        login_step(Err((LoginFailure::Other, "down".to_string()))),
        LoginStep::Report(m) if m == "down"
    ));
}

#[test]
fn progress_ticks() {
    let total = 231231231;
    assert_eq!(progress_tick(0, total), (223211, 0));
    assert_eq!(progress_tick(115615615, total), (115838826, 50));
    assert_eq!(progress_tick(231000000, total), (231223211, 99));
    assert_eq!(progress_tick(231223211, total), (total, 100));
    assert_eq!(progress_tick(total, total), (total, 100));
}

#[test]
fn init_summary_lines() {
    assert_eq!(
        log_summary("proj", "MIT", "0.0.1", "Awesome"),
        vec![
            "Project Name: proj".to_string(),
            "License: MIT".to_string(),
            "Version: 0.0.1".to_string(),
            "Description: Awesome".to_string(),
        ]
    );
}

#[test]
fn install_first_step() {
    let mut lock = ProtoLock::new();
    assert!(matches!(install_step(&lock, None), InstallStep::InstallAll));
    assert!(matches!(install_step(&lock, Some("lib".to_string())), InstallStep::Install(n) if n == "lib"));
    let mut m = ppm_manifest("p".to_string(), "MIT".to_string());
    record_install(&mut lock, &mut m, "lib".to_string(), "1.0.0".to_string(), vec![]).unwrap();
    assert!(matches!(
        install_step(&lock, Some("lib".to_string())),
        InstallStep::AlreadyInstalled(n) if n == "lib"
    ));
}
