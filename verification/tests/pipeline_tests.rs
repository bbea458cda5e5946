use fixture_pipeline::entries::Entry;
use fixture_pipeline::entries::SourceFile;
use fixture_pipeline::entries::collect_entries;
use fixture_pipeline::errors::PipelineError;
use fixture_pipeline::fingerprint::fingerprint;
use fixture_pipeline::manifest::check_identifier;
use fixture_pipeline::manifest::synthesize_manifest;
use fixture_pipeline::pipeline::RunPlan;
use fixture_pipeline::pipeline::finalize_outputs;
use fixture_pipeline::pipeline::is_workspace_manifest;
use fixture_pipeline::pipeline::plan_run;
use fixture_pipeline::toolchain::build_outcome;
use fixture_pipeline::toolchain::encoded_compiler_flags;
use fixture_pipeline::toolchain::format_outcome;

fn source(name: &[u8], contents: &[u8]) -> SourceFile {
    SourceFile { name: name.to_vec(), contents: contents.to_vec() }
}

fn tiny_module() -> Vec<u8> {
    // Header, one type section, one export section exporting "call"
    // and one stray name, one code section.
    vec![
        0x00, 0x61, 0x73, 0x6D, 0x01, 0x00, 0x00, 0x00, //
        0x01, 0x01, 0x60, //
        0x07, 0x0E, 0x02, 0x04, 0x63, 0x61, 0x6C, 0x6C, 0x00, 0x00, 0x03, 0x66, 0x6F, 0x6F,
        0x00, 0x01, //
        0x0A, 0x01, 0x00,
    ]
}

#[test]
fn collector_ignores_foreign_extensions() {
    let files = vec![
        source(b"alpha.src", b"a"),
        source(b"readme.txt", b"x"),
        source(b"beta.src", b"b"),
        source(b"nodot", b"y"),
    ];
    let entries = collect_entries(&files, &Vec::new());
    assert_eq!(entries.len(), 2);
    assert_eq!(entries[0].unit_name, b"alpha".to_vec());
    assert_eq!(entries[0].file_name, b"alpha.src".to_vec());
    assert_eq!(entries[0].fingerprint, fingerprint(&b"a".to_vec()));
    assert_eq!(entries[1].unit_name, b"beta".to_vec());
    assert_eq!(entries[0].out_binary_name(), b"alpha.wasm".to_vec());
    assert_eq!(entries[1].out_binary_name(), b"beta.wasm".to_vec());
}

#[test]
fn collector_drops_already_marked_units() {
    let files = vec![source(b"alpha.src", b"a"), source(b"beta.src", b"b")];
    let markers = vec![fingerprint(&b"a".to_vec())];
    let entries = collect_entries(&files, &markers);
    assert_eq!(entries.len(), 1);
    assert_eq!(entries[0].unit_name, b"beta".to_vec());
}

#[test]
fn second_run_over_unchanged_sources_collects_nothing() {
    let files = vec![source(b"alpha.src", b"a"), source(b"beta.src", b"b")];
    let first = collect_entries(&files, &Vec::new());
    assert_eq!(first.len(), 2);
    // Commit both: their markers appear in the output directory.
    let markers: Vec<Vec<u8>> = first.iter().map(|e| e.fingerprint.clone()).collect();
    let second = collect_entries(&files, &markers);
    assert_eq!(second.len(), 0);
}

#[test]
fn single_byte_change_rebuilds_exactly_that_unit() {
    let before = vec![source(b"alpha.src", b"aaaa"), source(b"beta.src", b"bbbb")];
    let committed = collect_entries(&before, &Vec::new());
    let markers: Vec<Vec<u8>> = committed.iter().map(|e| e.fingerprint.clone()).collect();

    let after = vec![source(b"alpha.src", b"aaaa"), source(b"beta.src", b"bbbc")];
    let entries = collect_entries(&after, &markers);
    assert_eq!(entries.len(), 1);
    assert_eq!(entries[0].unit_name, b"beta".to_vec());
    assert_eq!(entries[0].fingerprint, fingerprint(&b"bbbc".to_vec()));
}

#[test]
fn identifier_check_accepts_and_rejects() {
    assert!(check_identifier(&b"alpha".to_vec()));
    assert!(check_identifier(&b"_a1".to_vec()));
    assert!(!check_identifier(&Vec::new()));
    assert!(!check_identifier(&b"1abc".to_vec()));
    assert!(!check_identifier(&b"has-dash".to_vec()));
}

fn entry(unit: &[u8], file: &[u8]) -> Entry {
    Entry {
        file_name: file.to_vec(),
        unit_name: unit.to_vec(),
        fingerprint: b"0123abcd".to_vec(),
    }
}

#[test]
fn manifest_lists_units_and_fixed_profile() {
    let entries = vec![entry(b"alpha", b"alpha.src"), entry(b"beta", b"beta.src")];
    let m = synthesize_manifest(&entries, b"/ws/uapi".to_vec(), b"/ws/common".to_vec()).unwrap();
    assert_eq!(m.units.len(), 2);
    assert_eq!(m.units[0].name, b"alpha".to_vec());
    assert_eq!(m.units[0].source, b"alpha.src".to_vec());
    assert_eq!(m.units[1].name, b"beta".to_vec());
    assert_eq!(m.uapi_path, b"/ws/uapi".to_vec());
    assert_eq!(m.common_path, b"/ws/common".to_vec());
    assert_eq!(m.opt_level, 3);
    assert!(m.lto);
    assert_eq!(m.codegen_units, 1);
}

#[test]
fn manifest_rejects_invalid_unit_name() {
    let entries = vec![entry(b"not-an-ident", b"not-an-ident.src")];
    let r = synthesize_manifest(&entries, Vec::new(), Vec::new());
    assert_eq!(r.err(), Some(PipelineError::Configuration));
}

#[test]
fn manifest_rejects_colliding_unit_names() {
    let entries = vec![entry(b"alpha", b"alpha.src"), entry(b"alpha", b"alpha.src")];
    let r = synthesize_manifest(&entries, Vec::new(), Vec::new());
    assert_eq!(r.err(), Some(PipelineError::Configuration));
}

#[test]
fn compiler_flags_join_with_unit_separator() {
    let expected = b"-Clink-arg=-zstack-size=65536\x1f-Clink-arg=--import-memory\x1f\
-Clinker-plugin-lto\x1f-Ctarget-cpu=mvp\x1f-Dwarnings"
        .to_vec();
    assert_eq!(encoded_compiler_flags(), expected);
}

#[test]
fn style_check_outcome_is_fatal_with_captured_output() {
    assert_eq!(format_outcome(true, b"ignored".to_vec()), Ok(()));
    assert_eq!(
        format_outcome(false, b"diff".to_vec()),
        Err(PipelineError::Format(b"diff".to_vec()))
    );
}

#[test]
fn compile_outcome_is_fatal_with_captured_output() {
    assert_eq!(build_outcome(true, Vec::new()), Ok(()));
    assert_eq!(
        build_outcome(false, b"error[E0000]".to_vec()),
        Err(PipelineError::Build(b"error[E0000]".to_vec()))
    );
}

#[test]
fn failed_compile_commits_no_binary_and_no_marker() {
    // Fail-fast atomicity: a nonzero compiler exit aborts the run
    // before any post-processing or commit, so the output directory
    // receives neither a binary nor a marker.
    let files = vec![source(b"alpha.src", b"broken")];
    let plan = plan_run(&files, &Vec::new(), Vec::new(), Vec::new()).unwrap();
    let entries = match plan {
        RunPlan::Build(plan) => plan.entries,
        RunPlan::UpToDate => panic!("a fresh unit must be built"),
    };
    assert_eq!(entries.len(), 1);
    let mut committed: Vec<(Vec<u8>, Vec<u8>)> = Vec::new();
    let run = || -> Result<(), PipelineError> {
        format_outcome(true, Vec::new())?;
        build_outcome(false, b"compile error".to_vec())?;
        unreachable!("the failed build must abort the run");
    };
    assert_eq!(run(), Err(PipelineError::Build(b"compile error".to_vec())));
    assert!(committed.is_empty());
}

#[test]
fn fresh_sources_build_and_then_stay_up_to_date() {
    // Empty output directory, two sources: one run commits one
    // binary and one marker per unit; a second run is a no-op.
    let files = vec![source(b"alpha.src", b"(a)"), source(b"beta.src", b"(b)")];
    let no_markers: Vec<Vec<u8>> = Vec::new();

    let plan = plan_run(&files, &no_markers, b"/ws/uapi".to_vec(), b"/ws/common".to_vec());
    let plan = match plan.unwrap() {
        RunPlan::Build(plan) => plan,
        RunPlan::UpToDate => panic!("fresh sources must be built"),
    };
    assert_eq!(plan.entries.len(), 2);
    assert_eq!(plan.manifest.units.len(), 2);

    let compiled = vec![tiny_module(), tiny_module()];
    let items = finalize_outputs(&plan.entries, &compiled).unwrap();
    assert_eq!(items.len(), 2);
    assert_eq!(items[0].binary_name, b"alpha.wasm".to_vec());
    assert_eq!(items[1].binary_name, b"beta.wasm".to_vec());
    assert_eq!(items[0].marker_name, fingerprint(&b"(a)".to_vec()));
    assert_eq!(items[1].marker_name, fingerprint(&b"(b)".to_vec()));
    // Each binary was normalized: the stray "foo" export is gone.
    for item in &items {
        let n = item.binary.len();
        assert!(n < tiny_module().len());
        assert!(!item.binary.windows(3).any(|w| w == b"foo"));
    }

    // The committed markers make the second run a no-op: no
    // formatter, no compiler.
    let markers: Vec<Vec<u8>> = items.iter().map(|i| i.marker_name.clone()).collect();
    let second = plan_run(&files, &markers, b"/ws/uapi".to_vec(), b"/ws/common".to_vec());
    assert!(matches!(second, Ok(RunPlan::UpToDate)));
}

#[test]
fn planning_fails_on_invalid_survivor_stem() {
    let files = vec![source(b"has-dash.src", b"x")];
    let r = plan_run(&files, &Vec::new(), Vec::new(), Vec::new());
    assert!(matches!(r, Err(PipelineError::Configuration)));
}

#[test]
fn finalize_fails_on_malformed_compiled_module() {
    let entries = vec![entry(b"alpha", b"alpha.src")];
    let compiled = vec![b"not a module".to_vec()];
    let r = finalize_outputs(&entries, &compiled);
    assert!(matches!(r, Err(PipelineError::PostProcess)));
}

#[test]
fn workspace_declaration_is_detected() {
    assert!(is_workspace_manifest(
        &b"[package]\nname = \"x\"\n\n[workspace]\nmembers = []\n".to_vec()
    ));
    assert!(is_workspace_manifest(&b"[workspace]".to_vec()));
    assert!(!is_workspace_manifest(&b"[package]\nname = \"x\"\n".to_vec()));
    assert!(!is_workspace_manifest(&b"[work".to_vec()));
}

#[test]
fn error_kinds_have_stable_names() {
    assert_eq!(PipelineError::Configuration.kind_name(), "configuration");
    assert_eq!(PipelineError::Io.kind_name(), "io");
    assert_eq!(PipelineError::Format(Vec::new()).kind_name(), "format");
    assert_eq!(PipelineError::Build(Vec::new()).kind_name(), "build");
    assert_eq!(PipelineError::PostProcess.kind_name(), "post-process");
}
