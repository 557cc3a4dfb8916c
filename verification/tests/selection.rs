use sdbatch::params::{combine_prompts, PromptData};
use sdbatch::select::{apply_modifiers, is_applicable, resolve_entry, sample_indices};
use sdbatch::template::{
    weights_sum_is_scale, BatchTemplate, OneToManyPrompts, PromptModifer, Prompts, WeightedPrompt,
};
use sdbatch::BatchError;

fn base_params(positive: &str) -> PromptData {
    PromptData {
        positive: positive.to_string(),
        negative: "lowres".to_string(),
        model: "model-a".to_string(),
        sampler: "Euler a".to_string(),
        steps: 20,
        width: 512,
        height: 768,
        cfg_milli: 7000,
        clip_skip: None,
        seed: None,
        hires: None,
        post_process: None,
    }
}

fn template_with(prompts: Vec<Prompts>, count: Option<usize>) -> BatchTemplate {
    BatchTemplate {
        name: "my template".to_string(),
        description: None,
        api_url: None,
        base_prompt: base_params("1girl, solo"),
        count,
        save_images: None,
        restore_faces: None,
        prompts,
        modifiers: None,
    }
}

#[test]
fn combine_inserts_comma_and_space() {
    assert_eq!(combine_prompts("a, b", "c"), "a, b, c");
}

#[test]
fn combine_trims_trailing_whitespace() {
    assert_eq!(combine_prompts("a, b ", "c"), "a, b, c");
}

#[test]
fn combine_does_not_double_comma() {
    assert_eq!(combine_prompts("a, b,", "c"), "a, b, c");
}

#[test]
fn combine_empty_base() {
    assert_eq!(combine_prompts("", "c"), ", c");
}

#[test]
fn validate_rejects_count_over_pool() {
    let t = template_with(vec![Prompts::Single("a".to_string())], Some(5));
    match t.validate() {
        Err(BatchError::CountOverflow { count, pool }) => {
            assert_eq!(count, 5);
            assert_eq!(pool, 1);
        }
        other => panic!("expected CountOverflow, got {:?}", other),
    }
    // The overflowing template produces no plan and therefore no log.
    assert!(t.plan_run(true, "out").is_err());
}

#[test]
fn validate_accepts_count_at_pool_size() {
    let t = template_with(
        vec![
            Prompts::Single("a".to_string()),
            Prompts::Single("b".to_string()),
        ],
        Some(2),
    );
    assert!(t.validate().is_ok());
}

#[test]
fn sequential_sampling_is_the_prefix() {
    for _ in 0..5 {
        let picks = sample_indices(6, 4, true);
        assert_eq!(picks, vec![0, 1, 2, 3]);
    }
}

#[test]
fn random_sampling_is_distinct_and_in_range() {
    for _ in 0..50 {
        let picks = sample_indices(10, 7, false);
        assert_eq!(picks.len(), 7);
        for (i, a) in picks.iter().enumerate() {
            assert!(*a < 10);
            for b in picks.iter().skip(i + 1) {
                assert_ne!(a, b);
            }
        }
    }
}

#[test]
fn random_sampling_whole_pool() {
    let mut picks = sample_indices(8, 8, false);
    picks.sort();
    assert_eq!(picks, vec![0, 1, 2, 3, 4, 5, 6, 7]);
}

#[test]
fn resolve_single_returns_its_text() {
    let e = Prompts::Single("blue dress".to_string());
    assert_eq!(resolve_entry(&e), "blue dress");
}

#[test]
fn resolve_multiple_picks_a_member() {
    let e = Prompts::Multiple(vec!["a".to_string(), "b".to_string()]);
    for _ in 0..20 {
        let r = resolve_entry(&e);
        assert!(r == "a" || r == "b");
    }
}

#[test]
fn weighted_selection_matches_declared_ratio() {
    let e = Prompts::MultipleWeighted(vec![
        WeightedPrompt {
            prompt: "A".to_string(),
            chance: Some(300),
        },
        WeightedPrompt {
            prompt: "B".to_string(),
            chance: Some(700),
        },
    ]);
    let mut a_count = 0u32;
    for _ in 0..10000 {
        let r = resolve_entry(&e);
        if r == "A" {
            a_count += 1;
        } else {
            assert_eq!(r, "B");
        }
    }
    // Expected 3000 of 10000; allow a wide statistical margin.
    assert!(
        (2500..=3500).contains(&a_count),
        "empirical ratio off: {} of 10000",
        a_count
    );
}

#[test]
fn weighted_zero_chance_never_picked() {
    let e = Prompts::MultipleWeighted(vec![
        WeightedPrompt {
            prompt: "never".to_string(),
            chance: Some(0),
        },
        WeightedPrompt {
            prompt: "always".to_string(),
            chance: Some(1000),
        },
    ]);
    for _ in 0..100 {
        assert_eq!(resolve_entry(&e), "always");
    }
}

#[test]
fn weights_sum_check() {
    let ok = vec![
        WeightedPrompt {
            prompt: "a".to_string(),
            chance: Some(300),
        },
        WeightedPrompt {
            prompt: "b".to_string(),
            chance: Some(700),
        },
    ];
    let bad = vec![WeightedPrompt {
        prompt: "a".to_string(),
        chance: Some(600),
    }];
    assert!(weights_sum_is_scale(&ok));
    assert!(!weights_sum_is_scale(&bad));
}

#[test]
fn positive_activator_gates_application() {
    let m = PromptModifer {
        prompt: "with hat".to_string(),
        chance: None,
        if_activator: Some("red".to_string()),
        if_not_activator: None,
    };
    let record = base_params("1girl, blue dress");
    assert!(!is_applicable(&m, &record));
    let mods = vec![m];
    for _ in 0..50 {
        let out = apply_modifiers(record.clone(), &mods);
        assert_eq!(out.positive, record.positive);
    }
    let matching = base_params("1girl, red dress");
    assert!(is_applicable(&mods[0], &matching));
}

#[test]
fn negative_activator_blocks_application() {
    let m = PromptModifer {
        prompt: "with hat".to_string(),
        chance: None,
        if_activator: None,
        if_not_activator: Some(OneToManyPrompts::Many(vec![
            "hat".to_string(),
            "crown".to_string(),
        ])),
    };
    let wearing = base_params("1girl, crown");
    assert!(!is_applicable(&m, &wearing));
    let bare = base_params("1girl, solo");
    assert!(is_applicable(&m, &bare));
}

#[test]
fn sole_certain_modifier_always_applies() {
    let m = PromptModifer {
        prompt: "detailed".to_string(),
        chance: None,
        if_activator: None,
        if_not_activator: None,
    };
    let record = base_params("1girl, solo");
    let mods = vec![m];
    for _ in 0..20 {
        let out = apply_modifiers(record.clone(), &mods);
        assert_eq!(out.positive, "1girl, solo, detailed");
    }
}

#[test]
fn zero_chance_modifier_never_applies() {
    let m = PromptModifer {
        prompt: "detailed".to_string(),
        chance: Some(0),
        if_activator: None,
        if_not_activator: None,
    };
    let record = base_params("1girl, solo");
    let mods = vec![m];
    for _ in 0..20 {
        let out = apply_modifiers(record.clone(), &mods);
        assert_eq!(out.positive, "1girl, solo");
    }
}

#[test]
fn plan_run_sequential_builds_each_prompt() {
    let t = template_with(
        vec![
            Prompts::Single("red dress".to_string()),
            Prompts::Single("blue dress".to_string()),
        ],
        None,
    );
    let log = t.plan_run(true, "out").expect("plan should succeed");
    assert_eq!(log.template, "my template");
    assert_eq!(log.images.len(), 2);
    assert_eq!(log.images[0].positive, "1girl, solo, red dress");
    assert_eq!(log.images[1].positive, "1girl, solo, blue dress");
    for img in &log.images {
        let seed = img.seed.expect("plan assigns a provisional seed");
        assert!((0..0x1_0000_0000).contains(&seed));
        assert_eq!(img.negative, "lowres");
        assert_eq!(img.model, "model-a");
    }
}

#[test]
fn plan_run_resolves_multiple_and_weighted_entries() {
    let t = template_with(
        vec![
            Prompts::Multiple(vec!["a".to_string(), "b".to_string()]),
            Prompts::MultipleWeighted(vec![WeightedPrompt {
                prompt: "w".to_string(),
                chance: Some(1000),
            }]),
        ],
        None,
    );
    let log = t.plan_run(true, "out").expect("plan should succeed");
    assert!(
        log.images[0].positive == "1girl, solo, a" || log.images[0].positive == "1girl, solo, b"
    );
    assert_eq!(log.images[1].positive, "1girl, solo, w");
}

#[test]
fn generate_log_for_prompt_applies_modifier_after_variant() {
    let mut t = template_with(vec![Prompts::Single("red dress".to_string())], None);
    t.modifiers = Some(vec![PromptModifer {
        prompt: "hat".to_string(),
        chance: None,
        if_activator: Some("dress".to_string()),
        if_not_activator: None,
    }]);
    let record = t.generate_log_for_prompt(&t.prompts[0]);
    assert_eq!(record.positive, "1girl, solo, red dress, hat");
}
