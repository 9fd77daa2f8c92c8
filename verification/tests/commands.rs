use pata::commands::jaribu;
use pata::commands::jenga;
use pata::commands::nadhifu;
use pata::commands::njozi::{self, scaffold_files, Template};
use pata::commands::ongeza::{self, exact_version_for_marker};
use pata::commands::tenda::{self, ArtifactKind};
use pata::commands::thibitisha;
use pata::commands::{route, usage, Subcommand};

fn args(v: &[&str]) -> Vec<String> {
    v.iter().map(|s| s.to_string()).collect()
}

#[test]
fn parse_defaults_to_asili_app() {
    let a: Vec<String> = vec![];
    let (name, path, _) = njozi::parse_inputs(&a).expect("should parse defaults");
    assert_eq!(name, "asili-app");
    assert_eq!(path, "asili-app");
}

#[test]
fn exact_version_for_marker_pads_short_constraints() {
    assert_eq!(exact_version_for_marker("^0.1"), "0.1.0");
    assert_eq!(exact_version_for_marker("~2.3"), "2.3.0");
    assert_eq!(exact_version_for_marker("1"), "1.0.0");
}

#[test]
fn exact_version_for_marker_passes_through_full_versions() {
    assert_eq!(exact_version_for_marker("1.2.3"), "1.2.3");
    assert_eq!(exact_version_for_marker(">=1.2.3"), "1.2.3");
}

#[test]
fn exact_version_for_marker_cuts_extra_parts_and_trims() {
    assert_eq!(exact_version_for_marker("1.2.3.4"), "1.2.3");
    assert_eq!(exact_version_for_marker("^ 2 "), "2.0.0");
    assert_eq!(exact_version_for_marker(""), ".0.0");
}

#[test]
fn route_names_each_subcommand() {
    assert!(matches!(route(&args(&["jenga"])), Ok(Subcommand::Jenga)));
    assert!(matches!(route(&args(&["tenda", "x.asb"])), Ok(Subcommand::Tenda)));
    assert!(matches!(route(&args(&["msaada"])), Ok(Subcommand::Help)));
    assert!(matches!(route(&args(&["--msaada"])), Ok(Subcommand::Help)));
}

#[test]
fn route_without_arguments_is_a_usage_error_carrying_the_help_text() {
    let err = route(&[]).unwrap_err();
    assert_eq!(err.exit_code, 2);
    assert_eq!(err.message, usage());
    assert!(err.message.starts_with("matumizi: pata <amri>"));
}

#[test]
fn route_rejects_an_unknown_command() {
    let err = route(&args(&["ruka"])).unwrap_err();
    assert_eq!(err.exit_code, 2);
    assert_eq!(err.message, "amri isiyotambuliwa: ruka");
}

#[test]
fn jaribu_reads_every_option() {
    let (filter, fail_fast, list, json, threads) = jaribu::parse_args(&args(&[
        "--chuja", "hesabu", "--simama-haraka", "--orodha", "--json", "--nyuzi-za-jaribio", "4",
    ]))
    .unwrap();
    assert_eq!(filter.as_deref(), Some("hesabu"));
    assert!(fail_fast && list && json);
    assert_eq!(threads, Some(4));
}

#[test]
fn jaribu_rejects_a_bad_thread_count_and_unknown_flags() {
    let err = jaribu::parse_args(&args(&["--nyuzi-za-jaribio", "x"])).unwrap_err();
    assert_eq!(err.message, "--nyuzi-za-jaribio: 'x' si namba halali");
    assert_eq!(err.exit_code, 2);
    let err = jaribu::parse_args(&args(&["--chuja"])).unwrap_err();
    assert_eq!(err.message, "--chuja inahitaji muundo");
    let err = jaribu::parse_args(&args(&["--bila"])).unwrap_err();
    assert_eq!(err.message, "hoja isiyotambuliwa kwenye jaribu: --bila");
}

#[test]
fn jenga_collects_single_file_and_program_arguments() {
    let (profile, out, run, single, rest) =
        jenga::parse_args(&args(&["script.as", "--tenda", "--pato", "lengo", "foo", "bar.as"])).unwrap();
    assert_eq!(profile, "dev");
    assert_eq!(out.as_deref(), Some("lengo"));
    assert!(run);
    assert_eq!(single.as_deref(), Some("script.as"));
    assert_eq!(rest, vec!["foo".to_string(), "bar.as".to_string()]);
    let err = jenga::parse_args(&args(&["--namna"])).unwrap_err();
    assert_eq!(err.message, "--profile/--namna inahitaji thamani");
}

#[test]
fn nadhifu_accepts_one_path_only() {
    let (check, diff, json, path) = nadhifu::parse_args(&args(&["--kagua", "src"])).unwrap();
    assert!(check && !diff && !json);
    assert_eq!(path.as_deref(), Some("src"));
    let err = nadhifu::parse_args(&args(&["a", "b"])).unwrap_err();
    assert_eq!(err.message, "nadhifu inakubali njia moja tu, umetoa nyingine: b");
    let err = nadhifu::parse_args(&args(&["-x"])).unwrap_err();
    assert_eq!(err.message, "hoja isiyotambuliwa kwenye nadhifu: -x");
}

#[test]
fn njozi_reads_template_name_and_destination() {
    let (name, dest, template) = njozi::parse_inputs(&args(&["--maktaba", "mradi", "njia/ya"])).unwrap();
    assert_eq!(name, "mradi");
    assert_eq!(dest, "njia/ya");
    assert_eq!(template, Template::Library);
    let err = njozi::parse_inputs(&args(&["--nyingine"])).unwrap_err();
    assert_eq!(err.message, "hoja isiyotambuliwa: --nyingine");
    let err = njozi::parse_inputs(&args(&["   "])).unwrap_err();
    assert_eq!(err.message, "jina_la_mradi haliwezi kuwa tupu");
    assert_eq!(err.exit_code, 2);
}

#[test]
fn ongeza_reads_library_and_options() {
    let (lib, version, git, branch) = ongeza::parse_args(&args(&["kitabu"])).unwrap();
    assert_eq!(lib, "kitabu");
    assert_eq!(version, "^0.1");
    assert!(git.is_none() && branch.is_none());
    let (_, version, git, branch) = ongeza::parse_args(&args(&[
        "kitabu", "--toleo", "1.2", "--git", "https://x/y.git", "--tawi", "kuu",
    ]))
    .unwrap();
    assert_eq!(version, "1.2");
    assert_eq!(git.as_deref(), Some("https://x/y.git"));
    assert_eq!(branch.as_deref(), Some("kuu"));
    let err = ongeza::parse_args(&[]).unwrap_err();
    assert_eq!(err.message, "matumizi: pata ongeza <lib> [--toleo <semver>] [--git <url>] [--tawi <jina>]");
    let err = ongeza::parse_args(&args(&["kitabu", "--git"])).unwrap_err();
    assert_eq!(err.message, "--git inahitaji URL");
}

#[test]
fn tenda_splits_path_and_program_arguments() {
    let (path, rest) = tenda::parse_args(&args(&["a.asb", "x", "y"])).unwrap();
    assert_eq!(path, "a.asb");
    assert_eq!(rest, vec!["x".to_string(), "y".to_string()]);
    let err = tenda::parse_args(&[]).unwrap_err();
    assert_eq!(err.message, "tenda inahitaji path: .asb au .build.manifest");
    assert!(tenda::asks_for_help(&args(&["a.asb", "--msaada"])));
    assert!(!tenda::asks_for_help(&args(&["a.asb"])));
}

#[test]
fn tenda_classifies_artifacts_and_reads_manifests() {
    assert_eq!(tenda::artifact_kind("hello.asb", "k/hello.asb").unwrap(), ArtifactKind::Bytecode);
    assert_eq!(
        tenda::artifact_kind("hello.build.manifest", "k/hello.build.manifest").unwrap(),
        ArtifactKind::Manifest
    );
    let err = tenda::artifact_kind("hello.txt", "k/hello.txt").unwrap_err();
    assert_eq!(err.message, "tenda inahitaji .asb au .build.manifest, si: k/hello.txt");
    let manifest = "project=hello\nentry=src/kuu.as\nkilele=  hello.asb \r\nkilele=other.asb\n";
    assert_eq!(tenda::artifact_in_manifest(manifest).as_deref(), Some("hello.asb"));
    let err = tenda::artifact_from_manifest("m.build.manifest", "project=x\n").unwrap_err();
    assert_eq!(err.message, "manifest m.build.manifest haina mstari kilele=");
    assert_eq!(err.exit_code, 1);
}

#[test]
fn thibitisha_ffi_safety_uses_the_base_type_name() {
    assert!(thibitisha::is_ffi_safe("Namba"));
    assert!(thibitisha::is_ffi_safe("uBiti64"));
    assert!(!thibitisha::is_ffi_safe("Orodha < Namba >"));
    assert!(!thibitisha::is_ffi_safe("Neno"));
}

#[test]
fn thibitisha_doc_comment_detection_skips_blank_lines() {
    let lines = args(&["/// Hati", "", "umma kazi f() -> Tupu {}", "umma kazi g() -> Tupu {}"]);
    assert!(thibitisha::has_doc_before(&lines, 3));
    assert!(!thibitisha::has_doc_before(&lines, 4));
}

#[test]
fn thibitisha_summary_lists_every_failure() {
    let checks = vec![
        ("nyaraka".to_string(), Some("hakuna".to_string())),
        ("umbizo".to_string(), None),
        ("usalama_wa_ffi".to_string(), Some("aina".to_string())),
    ];
    let err = thibitisha::summarize_checks(&checks).unwrap_err();
    assert_eq!(err.message, "thibitisha imeshindwa: nyaraka: hakuna; usalama_wa_ffi: aina");
    assert_eq!(err.exit_code, 1);
    assert!(thibitisha::summarize_checks(&[("umbizo".to_string(), None)]).is_ok());
}

#[test]
fn scaffold_lists_the_project_files_in_order() {
    let files = scaffold_files("mradi", Template::Library);
    let paths: Vec<&str> = files.iter().map(|(p, _)| p.as_str()).collect();
    assert_eq!(paths, vec!["pata.toml", "src/kuu.as", ".gitignore", "kilele/.gitkeep", ".github/workflows/ci.yml"]);
    assert!(files[0].1.starts_with("[jumla]\njina = \"mradi\"\n"));
    assert!(files[1].1.starts_with("# Maktaba ya Asili"));
    assert_eq!(files[3].1, "");
    let bin = scaffold_files("x", Template::Binary);
    assert!(bin[1].1.contains("kazi kuu(hoja: Orodha<Neno>) -> Tupu"));
}
