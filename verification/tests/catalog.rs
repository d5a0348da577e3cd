use mj_local_llm_hub::catalog::{catalog_allows, f64_value, ratio_at_most, recommend, RECOMMENDED_LIMIT};
use mj_local_llm_hub::domain::{DeviceProfile, ModelArtifact};

const GIB: u64 = 1024 * 1024 * 1024;

fn artifact(family: &str, runtime_model: &str, download: u64, peak: u64) -> ModelArtifact {
    ModelArtifact {
        id: runtime_model.replace(':', "-"),
        family: family.to_string(),
        display_name: runtime_model.to_string(),
        runtime_model: runtime_model.to_string(),
        parameter_label: String::new(),
        download_bytes: download,
        estimated_peak_ram_bytes: peak,
        context_tokens: 131_072,
        capabilities: vec!["text-only".to_string(), "tools".to_string()],
        platforms: vec!["desktop".to_string()],
        lifecycle: "active".to_string(),
        source_url: String::new(),
    }
}

/// A catalog with the shape of the hub's model catalog.
fn fixture_catalog() -> Vec<ModelArtifact> {
    vec![
        artifact("Mistral Small 3", "mistral-small:24b", 14_000_000_000, 18_000_000_000),
        artifact("Phi-4 Mini", "phi4-mini:3.8b", 2_500_000_000, 3_900_000_000),
        artifact("Qwen3", "qwen3:0.6b", 523_000_000, 1_200_000_000),
        artifact("Gemma 4", "gemma4:e2b", 1_600_000_000, 2_200_000_000),
        artifact("OpenAI gpt-oss", "gpt-oss:20b", 14_000_000_000, 16_000_000_000),
        artifact("OpenAI gpt-oss", "gpt-oss:120b", 65_000_000_000, 70_000_000_000),
    ]
}

fn device(os: &str, arch: &str, cpus: usize, memory: Option<u64>, reachable: bool) -> DeviceProfile {
    DeviceProfile {
        os: os.into(),
        architecture: arch.into(),
        logical_cpus: cpus,
        total_memory_bytes: memory,
        runtime_reachable: reachable,
    }
}

#[test]
fn low_memory_blocks_large_model() {
    let device = device("linux", "x86_64", 4, Some(4 * GIB), true);
    let result = recommend(&fixture_catalog(), &device, &[]);
    assert!(result
        .iter()
        .any(|row| row.artifact.family == "Mistral Small 3" && row.fit == "blocked"));
    assert_eq!(result.first().unwrap().artifact.family, "Qwen3");
}

#[test]
fn catalog_contains_official_gpt_oss_ollama_variants() {
    let catalog = fixture_catalog();
    let twenty = catalog
        .iter()
        .find(|model| model.runtime_model == "gpt-oss:20b")
        .expect("gpt-oss 20b catalog entry");
    let one_twenty = catalog
        .iter()
        .find(|model| model.runtime_model == "gpt-oss:120b")
        .expect("gpt-oss 120b catalog entry");
    assert_eq!(twenty.context_tokens, 131_072);
    assert!(twenty.capabilities.iter().any(|value| value == "text-only"));
    assert!(twenty.capabilities.iter().any(|value| value == "tools"));
    assert!(one_twenty.estimated_peak_ram_bytes > twenty.estimated_peak_ram_bytes);
    assert!(!twenty.platforms.iter().any(|value| value == "mobile-candidate"));
    assert!(catalog_allows(&catalog, "gpt-oss:20b"));
    assert!(!catalog_allows(&catalog, "llama3:70b"));
}

#[test]
fn sixteen_gib_device_does_not_recommend_gpt_oss() {
    let device = device("macos", "aarch64", 8, Some(16 * GIB), true);
    let result = recommend(&fixture_catalog(), &device, &[]);
    assert!(result.iter().any(|row| {
        row.artifact.runtime_model == "gpt-oss:20b"
            && matches!(row.fit.as_str(), "not-recommended" | "blocked")
    }));
    assert!(result
        .iter()
        .any(|row| row.artifact.runtime_model == "gpt-oss:120b" && row.fit == "blocked"));
}

#[test]
fn ranking_is_by_score_then_download() {
    let device = device("linux", "x86_64", 8, Some(8 * GIB), true);
    let installed = vec!["gemma4:e2b".to_string()];
    let result = recommend(&fixture_catalog(), &device, &installed);
    let order: Vec<(&str, u8)> =
        result.iter().map(|r| (r.artifact.runtime_model.as_str(), r.fit_score)).collect();
    // 8 GiB = 8_589_934_592 bytes: 0.55 of it is 4_724_464_025.6.
    assert_eq!(
        order,
        vec![
            ("qwen3:0.6b", 95),
            ("gemma4:e2b", 95),
            ("phi4-mini:3.8b", 95),
            ("mistral-small:24b", 0),
            ("gpt-oss:20b", 0),
            ("gpt-oss:120b", 0),
        ]
    );
    assert!(result[1].installed);
    assert!(!result[0].installed);
    assert_eq!(result[0].reason, "메모리 안전 여유를 포함해 장시간 실행에 적합합니다.");
}

#[test]
fn equal_rank_keeps_catalog_order() {
    let catalog = vec![
        artifact("B", "b", 100, 10),
        artifact("A", "a", 100, 10),
        artifact("C", "c", 50, 10),
    ];
    let result = recommend(&catalog, &device("linux", "x86_64", 1, Some(GIB), true), &[]);
    let names: Vec<&str> = result.iter().map(|r| r.artifact.family.as_str()).collect();
    assert_eq!(names, vec!["C", "B", "A"]);
}

#[test]
fn unreachable_runtime_requires_starting_it() {
    let result =
        recommend(&fixture_catalog(), &device("linux", "x86_64", 4, Some(64 * GIB), false), &[]);
    assert!(result.iter().all(|r| r.fit == "runtime-required" && r.fit_score == 20));
}

#[test]
fn unknown_memory_counts_as_four_gib() {
    let catalog = vec![artifact("X", "x", 1, 2 * GIB)];
    let known = recommend(&catalog, &device("linux", "x86_64", 4, Some(4 * GIB), true), &[]);
    let unknown = recommend(&catalog, &device("linux", "x86_64", 4, None, true), &[]);
    assert_eq!(known[0].fit, unknown[0].fit);
    assert_eq!(unknown[0].fit, "recommended");
}

#[test]
fn thresholds_follow_f64_division() {
    let cases: [(u64, u64); 6] = [(55, 100), (56, 100), (78, 100), (95, 100), (96, 100), (0, 0)];
    for (peak, memory) in cases {
        let ratio = peak as f64 / memory as f64;
        let expected = if ratio <= 0.55 {
            "recommended"
        } else if ratio <= 0.78 {
            "possible"
        } else if ratio <= 0.95 {
            "not-recommended"
        } else {
            "blocked"
        };
        let result = recommend(
            &[artifact("X", "x", 1, peak)],
            &device("linux", "x86_64", 1, Some(memory), true),
            &[],
        );
        assert_eq!(result[0].fit, expected, "peak {peak} of {memory}");
    }
    for (num, den) in [(u64::MAX, 3), (1 << 60, (1 << 60) + 1), (7, 9), ((1 << 53) + 1, 1 << 54)] {
        assert_eq!(ratio_at_most(num, den, RECOMMENDED_LIMIT), (num as f64 / den as f64) <= 0.55);
    }
    assert_eq!(f64_value(u64::MAX), u64::MAX as f64 as u128);
    assert_eq!(f64_value((1 << 53) + 1), ((1u64 << 53) + 1) as f64 as u128);
    assert_eq!(f64_value((1 << 53) + 3), ((1u64 << 53) + 3) as f64 as u128);
    assert_eq!(f64_value(12345), 12345);
}

#[test]
fn more_memory_never_fits_worse() {
    let catalog = fixture_catalog();
    let memories = [2 * GIB, 4 * GIB, 8 * GIB, 16 * GIB, 24 * GIB, 32 * GIB, 128 * GIB];
    let score_of = |memory: u64, model: &str| {
        recommend(&catalog, &device("linux", "x86_64", 8, Some(memory), true), &[])
            .into_iter()
            .find(|row| row.artifact.runtime_model == model)
            .unwrap()
            .fit_score
    };
    for model in catalog.iter().map(|a| a.runtime_model.as_str()) {
        for pair in memories.windows(2) {
            assert!(score_of(pair[1], model) >= score_of(pair[0], model), "{model}");
        }
    }
    assert_eq!(score_of(16 * GIB, "gpt-oss:20b"), 40);
    assert_eq!(score_of(24 * GIB, "gpt-oss:20b"), 70);
    assert_eq!(score_of(32 * GIB, "gpt-oss:20b"), 95);
    // A smaller peak estimate on the same device never fits worse.
    let small = recommend(&[artifact("X", "x", 1, 4 * GIB)], &device("linux", "x86_64", 8, Some(8 * GIB), true), &[]);
    let large = recommend(&[artifact("X", "x", 1, 6 * GIB)], &device("linux", "x86_64", 8, Some(8 * GIB), true), &[]);
    assert!(small[0].fit_score >= large[0].fit_score);
    assert_eq!((small[0].fit_score, large[0].fit_score), (95, 70));
}
