use scriba_rs::models::{default_model_dir, find_model, human_bytes, is_installed, model_dir, model_path, registry, partial_file_name};
use std::path::{Path, PathBuf};

/// `human_bytes` as the float formatting computes it.
fn float_human_bytes(n: u64) -> String {
    const GB: f64 = 1_073_741_824.0;
    const MB: f64 = 1_048_576.0;
    const KB: f64 = 1_024.0;
    let n = n as f64;
    if n >= GB {
        format!("{:.1} GB", n / GB).replace('.', ",")
    } else if n >= MB {
        format!("{:.1} MB", n / MB).replace('.', ",")
    } else if n >= KB {
        format!("{:.0} KB", n / KB)
    } else {
        format!("{:.0} B", n)
    }
}

#[test]
fn human_bytes_exact_values() {
    assert_eq!(human_bytes(0), "0 B");
    assert_eq!(human_bytes(512), "512 B");
    assert_eq!(human_bytes(1023), "1023 B");
    assert_eq!(human_bytes(1024), "1 KB");
    assert_eq!(human_bytes(1536), "2 KB");
    assert_eq!(human_bytes(2560), "2 KB");
    assert_eq!(human_bytes(1_048_576), "1,0 MB");
    assert_eq!(human_bytes(1_310_720), "1,2 MB");
    assert_eq!(human_bytes(1_835_008), "1,8 MB");
    assert_eq!(human_bytes(199_229_440), "190,0 MB");
    assert_eq!(human_bytes(1_073_741_824), "1,0 GB");
    assert_eq!(human_bytes(1_342_177_280), "1,2 GB");
    assert_eq!(human_bytes(u64::MAX), "17179869184,0 GB");
    assert_eq!(human_bytes(9_007_199_523_176_449), "8388608,2 GB");
}

#[test]
fn human_bytes_matches_float_formatting() {
    let mut samples: Vec<u64> = vec![0, 1, 9, 10, 99, 100, 1023, 1024, 1025, 1535, 1536, 1537, 2560, 3584];
    for k in 0..64u32 {
        let p = 1u64 << k;
        samples.push(p);
        samples.push(p.wrapping_sub(1));
        samples.push(p.wrapping_add(1));
        samples.push(p / 2 * 3);
    }
    for q in 1..200u64 {
        samples.push(q * 104_857 + q % 7);
        samples.push(q * 536_870_912 / 5);
        samples.push(q * 262_144 * 5);
        samples.push((1u64 << 53) + q * 1_234_567);
        samples.push(u64::MAX - q * 987_654_321_123);
    }
    let mut x: u64 = 0x9E37_79B9_7F4A_7C15;
    for _ in 0..20_000 {
        x ^= x << 13;
        x ^= x >> 7;
        x ^= x << 17;
        samples.push(x >> (x % 64));
    }
    for n in samples {
        assert_eq!(human_bytes(n), float_human_bytes(n), "n = {n}");
    }
}

#[test]
fn human_bytes_units_and_comma() {
    for n in [0u64, 1023, 1024, 1_048_575, 1_048_576, 1_073_741_823, 1_073_741_824, u64::MAX] {
        let s = human_bytes(n);
        assert!(!s.contains('.'), "{s}");
        let unit = if n >= 1 << 30 { " GB" } else if n >= 1 << 20 { " MB" } else if n >= 1024 { " KB" } else { " B" };
        assert!(s.ends_with(unit), "{s}");
    }
}

#[test]
fn registry_lists_three_models() {
    let r = registry();
    let ids: Vec<&str> = r.iter().map(|m| m.id).collect();
    assert_eq!(ids, vec!["lite", "medium", "turbo"]);
    assert_eq!(r[0].file, "ggml-small-q5_1.bin");
    assert_eq!(r[1].file, "ggml-medium-q5_0.bin");
    assert_eq!(r[2].file, "ggml-large-v3-turbo-q5_0.bin");
    assert_eq!(r[2].name, "Large Turbo");
    assert_eq!(r[0].size, "190 MB");
    assert_eq!((r[0].speed, r[0].quality), (4, 2));
    assert_eq!((r[2].speed, r[2].quality), (3, 4));
    assert_eq!(
        r[1].url,
        "https://huggingface.co/ggerganov/whisper.cpp/resolve/main/ggml-medium-q5_0.bin"
    );
}

#[test]
fn find_model_by_id() {
    assert_eq!(find_model("turbo").map(|m| m.file), Some("ggml-large-v3-turbo-q5_0.bin"));
    assert_eq!(find_model("medium").map(|m| m.name), Some("Medium"));
    assert!(find_model("large").is_none());
    assert!(find_model("").is_none());
    assert!(find_model("Lite").is_none());
}

#[test]
fn model_path_below_chosen_dir() {
    let dir = Path::new("/tmp/scriba-test-data");
    let p = model_path("lite", Some(dir)).expect("lite is in the catalogue");
    assert_eq!(p.to_path_buf(), PathBuf::from("/tmp/scriba-test-data/models/ggml-small-q5_1.bin"));
    assert!(model_path("unknown", Some(dir)).is_none());
    assert_eq!(model_dir(Some(dir)).to_path_buf(), PathBuf::from("/tmp/scriba-test-data/models"));
}

#[test]
fn model_dir_without_chosen_dir() {
    let p = model_dir(None).to_path_buf();
    assert!(p.ends_with("models"));
}

#[test]
fn not_installed_without_file() {
    let base = Path::new("/nonexistent/scriba-data");
    assert!(!is_installed("medium", Some(base)));
    assert!(!is_installed("lite", Some(base)));
    assert!(!is_installed("nonexistent", Some(base)));
}

#[test]
fn partial_download_name() {
    assert_eq!(partial_file_name("ggml-small-q5_1.bin"), "ggml-small-q5_1.bin.part");
}

#[test]
fn default_model_dir_choices() {
    assert_eq!(default_model_dir(true, None).to_path_buf(), PathBuf::from("models"));
    assert_eq!(
        default_model_dir(false, Some(PathBuf::from("/home/u/.local/share"))).to_path_buf(),
        PathBuf::from("/home/u/.local/share/scriba/models")
    );
    assert_eq!(default_model_dir(false, None).to_path_buf(), PathBuf::from("./scriba/models"));
}
