use glimpse_speech::models::{
    file_evidence, hex_encode, sha256_hex, validate_model_id, validate_relative_file_path, DirEntryFact,
    FileEvidence, FileFact, InstallSpec, LooseFacts, ModelEngine, ModelError,
    ModelInstallManager, ModelStorage, RemoteFile,
};
use glimpse_speech::paths::PathStyle;

const ABSENT: FileFact = FileFact { is_file: false, size: None };

fn whisper_spec(id: &str, artifact: &str, size: Option<u64>) -> InstallSpec {
    InstallSpec {
        id: id.to_string(),
        engine: ModelEngine::Whisper,
        storage: ModelStorage::File { artifact: artifact.to_string() },
        files: vec![RemoteFile {
            url: format!("https://example.test/{artifact}"),
            path: artifact.to_string(),
            size_bytes: size,
            sha256: None,
        }],
    }
}

fn loose() -> LooseFacts {
    LooseFacts {
        is_file: false,
        is_dir: false,
        cached_file: false,
        cached_dir: false,
        entries: Vec::new(),
    }
}

#[test]
fn status_reports_missing_files() {
    let manager = ModelInstallManager::new("/cache", PathStyle::Unix);
    let spec = whisper_spec("whisper_small", "ggml-small.bin", Some(190_085_487));

    let status = manager.status(&spec, &[ABSENT], None).unwrap();
    assert!(!status.installed);
    assert_eq!(status.missing_files, vec!["ggml-small.bin".to_string()]);
    assert_eq!(status.bytes_on_disk, 0);
    assert_eq!(status.directory, "/cache/whisper_small/ggml-small.bin");
}

#[test]
fn partial_file_is_not_installed() {
    let manager = ModelInstallManager::new("/cache", PathStyle::Unix);
    let spec = whisper_spec("whisper_small", "ggml-small.bin", Some(190_085_487));
    let partial = FileFact { is_file: true, size: Some(7) };

    let status = manager.status(&spec, &[partial], Some(7)).unwrap();
    assert!(!status.installed);
    assert_eq!(status.missing_files, vec!["ggml-small.bin".to_string()]);
}

#[test]
fn rejects_unsafe_model_ids() {
    let manager = ModelInstallManager::new("/cache", PathStyle::Unix);
    let spec = whisper_spec("../escape", "ggml.bin", None);

    assert!(manager.status(&spec, &[ABSENT], None).is_err());
    assert!(manager.delete("../escape").is_err());
}

#[test]
fn rejects_unsafe_model_file_paths() {
    let manager = ModelInstallManager::new("/cache", PathStyle::Unix);
    let mut spec = whisper_spec("whisper_safe", "../ggml.bin", None);

    assert!(manager.status(&spec, &[ABSENT], None).is_err());
    spec.storage = ModelStorage::File { artifact: "ggml.bin".to_string() };
    spec.files[0].path = "/tmp/ggml.bin".to_string();
    assert!(manager.status(&spec, &[ABSENT], None).is_err());
}

#[test]
fn resolve_accepts_whisper_artifact_with_unexpected_size() {
    let manager = ModelInstallManager::new("/cache", PathStyle::Unix);
    let spec = whisper_spec("whisper_turbo", "ggml-turbo.bin", Some(874_188_075));
    let odd = FileFact { is_file: true, size: Some(26) };

    let resolved = manager.resolve(&spec, &[odd], Some(26)).unwrap();
    assert_eq!(resolved.engine, ModelEngine::Whisper);
    assert_eq!(resolved.path, "/cache/whisper_turbo/ggml-turbo.bin");
}

#[test]
fn resolve_loose_loads_arbitrary_whisper_file_by_path() {
    let manager = ModelInstallManager::new("/cache", PathStyle::Unix);

    let mut by_path = loose();
    by_path.is_file = true;
    let by_path = manager
        .resolve_loose("/cache/ggml-arbitrary.bin", ModelEngine::Whisper, &by_path)
        .unwrap();
    assert_eq!(by_path.engine, ModelEngine::Whisper);
    assert_eq!(by_path.path, "/cache/ggml-arbitrary.bin");

    let mut by_name = loose();
    by_name.cached_file = true;
    let by_name = manager
        .resolve_loose("ggml-arbitrary.bin", ModelEngine::Whisper, &by_name)
        .unwrap();
    assert_eq!(by_name.path, "/cache/ggml-arbitrary.bin");
}

#[test]
fn resolve_loose_rejects_unknown_reference() {
    let manager = ModelInstallManager::new("/cache", PathStyle::Unix);

    assert!(manager
        .resolve_loose("totally-unknown", ModelEngine::Whisper, &loose())
        .is_err());
    assert!(manager
        .resolve_loose("/no/such/file/model.bin", ModelEngine::Whisper, &loose())
        .is_err());
}

#[test]
fn resolve_loose_loads_parakeet_directory_by_name() {
    let manager = ModelInstallManager::new("/cache", PathStyle::Unix);
    let mut facts = loose();
    facts.cached_dir = true;

    let resolved = manager
        .resolve_loose("parakeet-local", ModelEngine::Parakeet, &facts)
        .unwrap();
    assert_eq!(resolved.engine, ModelEngine::Parakeet);
    assert_eq!(resolved.path, "/cache/parakeet-local");
}

#[test]
fn resolve_loose_loads_nemotron_directory_by_path() {
    let manager = ModelInstallManager::new("/cache", PathStyle::Unix);
    let mut facts = loose();
    facts.is_dir = true;

    let resolved = manager
        .resolve_loose("/cache/nemotron-local", ModelEngine::Nemotron, &facts)
        .unwrap();
    assert_eq!(resolved.engine, ModelEngine::Nemotron);
    assert_eq!(resolved.path, "/cache/nemotron-local");
}

#[test]
fn resolve_loose_rejects_directory_engine_file() {
    let manager = ModelInstallManager::new("/cache", PathStyle::Unix);
    let mut facts = loose();
    facts.is_file = true;

    let error = manager
        .resolve_loose("/cache/model.bin", ModelEngine::Parakeet, &facts)
        .unwrap_err();
    assert_eq!(error.message(), "parakeet models require a directory: /cache/model.bin");
}

#[test]
fn a_single_visible_file_stands_for_its_directory() {
    let manager = ModelInstallManager::new("/cache", PathStyle::Unix);
    let entry = |path: &str, is_file| DirEntryFact { path: path.to_string(), is_file };
    let mut facts = loose();
    facts.entries = vec![
        entry("/cache/m/.DS_Store", true),
        entry("/cache/m/sub", false),
        entry("/cache/m/ggml.bin", true),
    ];
    let resolved = manager.resolve_loose("m", ModelEngine::Whisper, &facts).unwrap();
    assert_eq!(resolved.path, "/cache/m/ggml.bin");
    facts.entries.push(entry("/cache/m/other.bin", true));
    let error = manager.resolve_loose("m", ModelEngine::Whisper, &facts).unwrap_err();
    assert_eq!(error, ModelError::Unknown("m".to_string()));
    assert_eq!(error.message(), "Unknown model: m");
}

#[test]
fn other_engines_need_every_file() {
    let manager = ModelInstallManager::new("/cache", PathStyle::Unix);
    let mut spec = whisper_spec("p", "a.onnx", None);
    spec.engine = ModelEngine::Parakeet;
    spec.storage = ModelStorage::Directory;
    spec.files.push(RemoteFile {
        url: String::new(),
        path: "b.onnx".to_string(),
        size_bytes: Some(3),
        sha256: None,
    });
    let there = FileFact { is_file: true, size: Some(3) };
    let error = manager.resolve(&spec, &[ABSENT, ABSENT], Some(0)).unwrap_err();
    assert_eq!(error.message(), "p is not fully installed. Missing: a.onnx, b.onnx");
    let resolved = manager.resolve(&spec, &[there, there], Some(6)).unwrap();
    assert_eq!(resolved.path, "/cache/p");
}

#[test]
fn verification_compares_sizes_and_digests() {
    let manager = ModelInstallManager::new("/cache", PathStyle::Unix);
    let mut spec = whisper_spec("w", "m.bin", Some(3));
    let digest = sha256_hex(b"abc");
    assert_eq!(digest, "ba7816bf8f01cfea414140de5dae2223b00361a396177a9cb410ff61f20015ad");
    spec.files[0].sha256 = Some(digest.to_ascii_uppercase());
    let there = [FileFact { is_file: true, size: Some(3) }];
    let seen = |size, sha: Option<&str>| {
        [FileEvidence { size, sha256: sha.map(str::to_string) }]
    };
    assert!(manager.verify(&spec, &there, Some(3), &seen(Some(3), Some(&digest))).unwrap().installed);
    assert_eq!(
        manager.verify(&spec, &there, Some(3), &seen(Some(4), None)).unwrap_err().message(),
        "m.bin has unexpected size: expected 3, got 4"
    );
    assert_eq!(
        manager.verify(&spec, &there, Some(3), &seen(None, None)).unwrap_err().message(),
        "read metadata for m.bin"
    );
    assert_eq!(
        manager.verify(&spec, &there, Some(3), &seen(Some(3), None)).unwrap_err().message(),
        "checksum /cache/w/m.bin"
    );
    let error = manager.verify(&spec, &there, Some(3), &seen(Some(3), Some("00"))).unwrap_err();
    assert!(error.message().starts_with("m.bin has unexpected sha256: expected BA78"));
    assert!(error.message().ends_with(", got 00"));
    let status = manager.verify(&spec, &[ABSENT], None, &seen(None, None)).unwrap();
    assert_eq!(status.missing_files, vec!["m.bin"]);
}

#[test]
fn evidence_holds_the_digest_of_the_contents() {
    let seen = file_evidence(Some(3), Some(b"abc"));
    assert_eq!(seen.size, Some(3));
    assert_eq!(seen.sha256, Some(sha256_hex(b"abc")));
    assert_ne!(seen.sha256, file_evidence(Some(3), Some(b"abd")).sha256);
    assert_eq!(file_evidence(None, None).sha256, None);
}

#[test]
fn identifiers_and_paths_stay_inside_the_cache() {
    for id in ["a", "whisper_small-q5.1", "...", "-"] {
        assert!(validate_model_id(id).is_ok(), "{id}");
    }
    for id in ["", ".", "..", "a/b", "a b", "é"] {
        assert_eq!(
            validate_model_id(id).unwrap_err().message(),
            format!("Invalid model id: {id}")
        );
    }
    for path in ["a", "a/b", "a/./b", "a//b/", ".hidden", "..."] {
        assert!(validate_relative_file_path(PathStyle::Unix, path).is_ok(), "{path}");
    }
    for path in ["", "/a", "./a", "..", "a/../b", "a/.."] {
        assert_eq!(
            validate_relative_file_path(PathStyle::Unix, path).unwrap_err().message(),
            format!("Invalid model file path: {path}")
        );
    }
}

#[test]
fn windows_paths_stay_inside_the_cache() {
    for path in ["a", "a\\b", "a/b", "a\\.\\b", "a\\\\b\\", ".hidden", "...", "ab:c"] {
        assert!(validate_relative_file_path(PathStyle::Windows, path).is_ok(), "{path}");
    }
    for path in [
        "", "\\a", "/a", ".\\a", "./a", "..", "..\\a", "a\\..\\b", "a/..\\b", "C:a", "c:\\a", "C:",
        "\\\\server\\share\\a",
    ] {
        assert_eq!(
            validate_relative_file_path(PathStyle::Windows, path).unwrap_err().message(),
            format!("Invalid model file path: {path}")
        );
    }
    for path in ["..\\a", "C:a", "\\a"] {
        assert!(validate_relative_file_path(PathStyle::Unix, path).is_ok(), "{path}");
    }
}

#[test]
fn models_lie_in_a_windows_cache() {
    let manager = ModelInstallManager::new("C:\\cache", PathStyle::Windows);
    assert_eq!(manager.style(), PathStyle::Windows);
    assert_eq!(manager.delete("m").unwrap().directory, "C:\\cache\\m");
    assert_eq!(manager.artifact_path(&whisper_spec("w", "f.bin", None)), "C:\\cache\\w\\f.bin");
    assert!(manager.status(&whisper_spec("w", "..\\f.bin", None), &[ABSENT], None).is_err());
}

#[test]
fn bytes_are_written_in_hexadecimal() {
    assert_eq!(hex_encode(&[0x00, 0x0f, 0xa5, 0xff]), "000fa5ff");
    assert_eq!(hex_encode(&[]), "");
}

#[test]
fn deleting_reports_an_absent_model() {
    let manager = ModelInstallManager::new("cache/", PathStyle::Unix);
    let status = manager.delete("m").unwrap();
    assert!(!status.installed);
    assert_eq!(status.directory, "cache/m");
    assert_eq!(manager.cache_dir(), "cache/");
    assert_eq!(manager.artifact_path(&whisper_spec("w", "f.bin", None)), "cache/w/f.bin");
}
