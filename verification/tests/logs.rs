use sdbatch::codec::{encode_log, parse_log, str_to_chars};
use sdbatch::log::{
    existing_image_indices, image_file_index, missing_indices, parse_image_index,
    safe_logfile_name, BatchLog,
};
use sdbatch::params::{HiResSettings, PostProcesses, PromptData};
use sdbatch::run::{classify_txt2img_error, image_filename, is_model_not_found, RunEvent, RunState};
use sdbatch::text::get_safe_filename;
use sdbatch::{BatchError, GenerationErrorKind};

fn record(positive: &str, seed: Option<i64>) -> PromptData {
    PromptData {
        positive: positive.to_string(),
        negative: "bad hands".to_string(),
        model: "model-b".to_string(),
        sampler: "DPM 2M++ Karras".to_string(),
        steps: 28,
        width: 640,
        height: 832,
        cfg_milli: 6500,
        clip_skip: Some(2),
        seed,
        hires: Some(HiResSettings {
            upscaler: "Latent".to_string(),
            upscale_by_milli: 1500,
            denoising_milli: 550,
            steps: 12,
        }),
        post_process: Some(PostProcesses::Resize {
            scale_by_milli: 500,
        }),
    }
}

fn sample_log() -> BatchLog {
    BatchLog {
        template: "portraits".to_string(),
        images: vec![
            record("1girl, red dress", Some(11)),
            record("1girl, blue dress", Some(-1)),
            record("1girl, \"quoted\" \\ prompt", None),
        ],
        file_path: "out/portraits-2024-01-02-0304.json".to_string(),
    }
}

#[test]
fn log_roundtrip_preserves_records() {
    let log = sample_log();
    let text = encode_log(&log);
    let parsed = parse_log(&str_to_chars(&text)).expect("canonical text must parse");
    assert_eq!(parsed.0, log.template);
    assert_eq!(parsed.1, log.images);
}

#[test]
fn log_roundtrip_empty_and_plain() {
    let log = BatchLog {
        template: "empty".to_string(),
        images: vec![],
        file_path: "x/y.json".to_string(),
    };
    let parsed = parse_log(&str_to_chars(&encode_log(&log))).expect("must parse");
    assert_eq!(parsed.0, "empty");
    assert_eq!(parsed.1.len(), 0);

    let mut plain = record("simple", None);
    plain.clip_skip = None;
    plain.hires = None;
    plain.post_process = None;
    let log2 = BatchLog {
        template: "plain".to_string(),
        images: vec![plain],
        file_path: "x/y.json".to_string(),
    };
    let parsed2 = parse_log(&str_to_chars(&encode_log(&log2))).expect("must parse");
    assert_eq!(parsed2.1, log2.images);
}

#[test]
fn parse_rejects_foreign_text() {
    assert!(parse_log(&str_to_chars("not a log")).is_none());
    assert!(parse_log(&str_to_chars("")).is_none());
}

#[test]
fn reroll_index_out_of_bounds_is_rejected_and_log_untouched() {
    let log = sample_log();
    let before = encode_log(&log);
    match log.check_reroll_index(5) {
        Err(BatchError::InvalidIndex { index, len }) => {
            assert_eq!(index, 5);
            assert_eq!(len, 3);
        }
        other => panic!("expected InvalidIndex, got {:?}", other),
    }
    let after = encode_log(&log);
    assert_eq!(before, after);
}

#[test]
fn reroll_index_in_bounds_is_accepted() {
    let log = sample_log();
    assert!(log.check_reroll_index(2).is_ok());
}

#[test]
fn cleared_entry_drops_only_the_seed() {
    let log = sample_log();
    let cleared = log.cleared_entry(0);
    assert_eq!(cleared.seed, None);
    assert_eq!(cleared.positive, log.images[0].positive);
    assert_eq!(cleared.hires, log.images[0].hires);
    // The log itself is untouched.
    assert_eq!(log.images[0].seed, Some(11));
}

#[test]
fn set_image_replaces_one_record() {
    let mut log = sample_log();
    let updated = log.cleared_entry(1).with_recorded_seed(4242);
    log.set_image(1, updated);
    assert_eq!(log.images[1].seed, Some(4242));
    assert_eq!(log.images[0].seed, Some(11));
    assert_eq!(log.images[2].seed, None);
}

#[test]
fn resume_regenerates_exactly_the_missing_indices() {
    // Images 0 and 2 exist on disk; 1 and 3 are missing. Foreign files and
    // secondary images mark nothing.
    let files = vec![
        "00.png".to_string(),
        "02.png".to_string(),
        "01-1.png".to_string(),
        "notes.txt".to_string(),
        "portraits-2024-01-02-0304.json".to_string(),
    ];
    let existing = existing_image_indices(&files);
    let missing = missing_indices(4, &existing);
    assert_eq!(missing, vec![1, 3]);
}

#[test]
fn resume_with_nothing_on_disk_regenerates_all() {
    let existing = existing_image_indices(&vec![]);
    assert_eq!(missing_indices(3, &existing), vec![0, 1, 2]);
}

#[test]
fn image_filenames_and_their_indices() {
    assert_eq!(image_filename(3, 0), "03.png");
    assert_eq!(image_filename(3, 2), "03-2.png");
    assert_eq!(image_filename(12, 0), "12.png");
    assert_eq!(image_file_index("03.png"), Some(3));
    assert_eq!(image_file_index("12.png"), Some(12));
    assert_eq!(image_file_index("03-2.png"), None);
    assert_eq!(image_file_index("notes.txt"), None);
    assert_eq!(image_file_index("nodot"), None);
    assert_eq!(image_file_index("+7.png"), Some(7));
}

#[test]
fn index_stems_parse_like_decimal_integers() {
    assert_eq!(parse_image_index("007"), Some(7));
    assert_eq!(parse_image_index("+3"), Some(3));
    assert_eq!(parse_image_index(""), None);
    assert_eq!(parse_image_index("3a"), None);
    assert_eq!(parse_image_index("99999999999999999999999999"), None);
}

#[test]
fn file_names_are_sanitized() {
    assert_eq!(get_safe_filename("my cool template"), "my-cool-template");
    assert_eq!(
        safe_logfile_name("my name", "2024-01-02-0304"),
        "my-name-2024-01-02-0304.json"
    );
}

#[test]
fn new_log_is_bound_to_a_stable_path() {
    let log = BatchLog::new("space name", "out");
    assert_eq!(log.template, "space name");
    assert!(log.images.is_empty());
    assert!(log.file_path.starts_with("out/space-name-"));
    assert!(log.file_path.ends_with(".json"));
    assert_eq!(log.output_dir().expect("path has a parent"), "out");
}

#[test]
fn pathless_log_has_no_output_dir() {
    let log = BatchLog {
        template: "t".to_string(),
        images: vec![],
        file_path: "orphan.json".to_string(),
    };
    match log.output_dir() {
        Err(BatchError::InvalidOutputDirectory) => {}
        other => panic!("expected InvalidOutputDirectory, got {:?}", other),
    }
}

#[test]
fn error_messages_name_the_template_failure() {
    let e = BatchError::PersistenceFailure {
        message: "disk full".to_string(),
    };
    assert_eq!(e.message(), "unable to run template, disk full");
    let g = BatchError::GenerationFailure {
        kind: sdbatch::GenerationErrorKind::SamplerNotFound,
        message: "Sampler \"X\" not found".to_string(),
    };
    assert_eq!(
        g.message(),
        "unable to run template, Sampler \"X\" not found"
    );
}

#[test]
fn response_bodies_classify_by_fixed_phrases() {
    assert_eq!(
        classify_txt2img_error("{\"detail\": \"Sampler not found\"}"),
        GenerationErrorKind::SamplerNotFound
    );
    assert_eq!(
        classify_txt2img_error("error: could not find upscaler named FooScale"),
        GenerationErrorKind::UpscalerNotFound
    );
    assert_eq!(
        classify_txt2img_error("internal server error"),
        GenerationErrorKind::Unclassified
    );
    assert!(is_model_not_found("model 'm1' not found", "m1"));
    assert!(!is_model_not_found("model 'm2' not found", "m1"));
}

#[test]
fn run_states_advance_in_plan_order() {
    let s = RunState::Validating;
    let s = s.step(RunEvent::ValidationPassed, 2);
    assert_eq!(s, RunState::Sampling);
    let s = s.step(RunEvent::Sampled, 2);
    assert_eq!(s, RunState::LogInitialized);
    let s = s.step(RunEvent::LogWritten { dry_run: false }, 2);
    assert_eq!(s, RunState::Generating { next: 0 });
    let s = s.step(RunEvent::ImageGenerated, 2);
    assert_eq!(s, RunState::Generating { next: 1 });
    let s = s.step(RunEvent::ImageGenerated, 2);
    assert_eq!(s, RunState::Completed);
}

#[test]
fn dry_run_completes_without_generating() {
    let s = RunState::LogInitialized.step(RunEvent::LogWritten { dry_run: true }, 5);
    assert_eq!(s, RunState::Completed);
}

#[test]
fn failures_abort_the_run() {
    let s = RunState::Validating.step(RunEvent::ValidationFailed, 3);
    assert_eq!(s, RunState::Failed);
    let s = RunState::Generating { next: 1 }.step(RunEvent::ImageFailed, 3);
    assert_eq!(s, RunState::Failed);
}
