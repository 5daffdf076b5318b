use goose_mlx_lm::error::{exception_text, Error, Exception};
use goose_mlx_lm::weights::{load_safetensors_strict, StrictLoadConfig, StrictLoadReport};

fn names(list: &[&str]) -> Vec<String> {
    list.iter().map(|s| s.to_string()).collect()
}

#[test]
fn candidates_without_rules() {
    let config = StrictLoadConfig::default();
    assert_eq!(config.candidates("norm.scale"), names(&["norm.scale"]));
    assert_eq!(
        config.candidates("a.weight"),
        names(&["a.weight", "a.inner.weight"])
    );
    assert_eq!(config.candidates(".weight"), names(&[".weight", ".inner.weight"]));
    assert_eq!(config.candidates(""), names(&[""]));
}

#[test]
fn candidates_follow_the_order_of_the_rules() {
    let config = StrictLoadConfig::default()
        .strip_prefix("model.")
        .strip_prefix("other.")
        .rewrite_prefix("model.", "text.");
    assert_eq!(
        config.candidates("model.a.weight"),
        names(&[
            "model.a.weight",
            "model.a.inner.weight",
            "a.weight",
            "a.inner.weight",
            "text.a.weight",
            "text.a.inner.weight",
        ])
    );
    assert_eq!(config.candidates("other.b"), names(&["other.b", "b"]));
}

#[test]
fn candidates_are_listed_once() {
    let config = StrictLoadConfig::default()
        .rewrite_prefix("model.", "model.")
        .strip_prefix("");
    assert_eq!(
        config.candidates("model.a.weight"),
        names(&["model.a.weight", "model.a.inner.weight"])
    );
}

#[test]
fn candidates_of_text_beyond_ascii() {
    let config = StrictLoadConfig::default().strip_prefix("größe.");
    assert_eq!(
        config.candidates("größe.maß.weight"),
        names(&[
            "größe.maß.weight",
            "größe.maß.inner.weight",
            "maß.weight",
            "maß.inner.weight",
        ])
    );
}

#[test]
fn allowed_prefixes_suffixes_and_parts() {
    let config = StrictLoadConfig::default()
        .allow_unused_prefix("vision_tower.")
        .allow_missing_suffix(".bias")
        .allow_missing_contains(".k_proj.");
    assert!(config.is_unused_allowed("vision_tower.x"));
    assert!(!config.is_unused_allowed("x.vision_tower."));
    assert!(config.is_missing_allowed("a.bias"));
    assert!(!config.is_missing_allowed("a.bias.b"));
    assert!(config.is_missing_allowed("a.k_proj.weight"));
    assert!(!config.is_missing_allowed("a.k_proj"));
    assert!(!config.is_missing_allowed("k_proj.weight"));
}

#[test]
fn weights_go_to_the_first_candidate_that_is_a_parameter() {
    let config = StrictLoadConfig::default().rewrite_prefix("language_model.", "model.");
    let parameters = names(&["model.a.inner.weight", "model.b", "c"]);
    let mut report = StrictLoadReport::default();
    let targets = load_safetensors_strict(
        &names(&["language_model.a.weight", "language_model.b", "c", "d"]),
        &parameters,
        &config,
        &mut report,
    );
    assert_eq!(
        targets,
        vec![
            Some("model.a.inner.weight".to_string()),
            Some("model.b".to_string()),
            Some("c".to_string()),
            None,
        ]
    );
    match report.finish(&parameters, &config) {
        Err(Error::StrictLoadValidation { missing, unused }) => {
            assert!(missing.is_empty());
            assert_eq!(unused, names(&["d"]));
        }
        other => panic!("{other:?}"),
    }
}

#[test]
fn exact_names_come_before_rewritten_ones() {
    let config = StrictLoadConfig::default().strip_prefix("a.");
    let mut report = StrictLoadReport::default();
    let targets = load_safetensors_strict(
        &names(&["a.x"]),
        &names(&["x", "a.x"]),
        &config,
        &mut report,
    );
    assert_eq!(targets, vec![Some("a.x".to_string())]);
}

#[test]
fn finish_lists_what_is_missing_and_unused_in_order() {
    let config = StrictLoadConfig::default()
        .allow_missing_suffix(".bias")
        .allow_unused_prefix("audio_tower.");
    let parameters = names(&["z.weight", "b.bias", "a.weight", "é.weight", "Z.weight"]);
    let mut report = StrictLoadReport::default();
    load_safetensors_strict(
        &names(&["y", "audio_tower.q", "x", "y", "a.weight"]),
        &parameters,
        &config,
        &mut report,
    );
    match report.finish(&parameters, &config) {
        Err(Error::StrictLoadValidation { missing, unused }) => {
            assert_eq!(missing, names(&["Z.weight", "z.weight", "é.weight"]));
            assert_eq!(unused, names(&["x", "y", "y"]));
        }
        other => panic!("{other:?}"),
    }
}

#[test]
fn complete_loads_succeed_in_parts_and_in_any_order() {
    let config = StrictLoadConfig::default().allow_missing_suffix(".bias");
    let parameters = names(&["a", "b", "c.bias"]);
    let mut first = StrictLoadReport::default();
    load_safetensors_strict(&names(&["b"]), &parameters, &config, &mut first);
    load_safetensors_strict(&names(&["a"]), &parameters, &config, &mut first);
    assert!(first.finish(&parameters, &config).is_ok());
    let mut second = StrictLoadReport::default();
    load_safetensors_strict(&names(&["a", "b"]), &parameters, &config, &mut second);
    assert!(second.finish(&parameters, &config).is_ok());
}

#[test]
fn verdicts_do_not_depend_on_order() {
    let config = StrictLoadConfig::default();
    let verdict = |keys: &[&str], parameters: &[&str]| {
        let parameters = names(parameters);
        let mut report = StrictLoadReport::default();
        load_safetensors_strict(&names(keys), &parameters, &config, &mut report);
        match report.finish(&parameters, &config) {
            Err(Error::StrictLoadValidation { missing, unused }) => (missing, unused),
            other => panic!("{other:?}"),
        }
    };
    let expected = (names(&["m", "n"]), names(&["u", "v"]));
    assert_eq!(verdict(&["v", "a", "u"], &["n", "a", "m"]), expected);
    assert_eq!(verdict(&["u", "v", "a"], &["a", "m", "n"]), expected);
}

#[test]
fn copies_of_rules_and_reports() {
    let config = StrictLoadConfig::default()
        .allow_unused_prefix("u.")
        .allow_missing_suffix(".bias")
        .allow_missing_contains(".k.")
        .strip_prefix("s.")
        .rewrite_prefix("r.", "t.");
    let copy = config.clone();
    for key in ["u.a", "a.bias", "a.k.b", "s.a.weight", "r.b", "c"] {
        assert_eq!(copy.candidates(key), config.candidates(key));
        assert_eq!(copy.is_unused_allowed(key), config.is_unused_allowed(key));
        assert_eq!(copy.is_missing_allowed(key), config.is_missing_allowed(key));
    }
    let mut report = StrictLoadReport::default();
    report.record_loaded("a".to_string());
    let mut copy = report.clone();
    copy.record_unused("k".to_string());
    assert!(report.finish(&names(&["a"]), &config).is_ok());
    assert!(copy.finish(&names(&["a"]), &config).is_err());
}

#[test]
fn reports_note_single_keys() {
    let config = StrictLoadConfig::default();
    let mut report = StrictLoadReport::default();
    report.record_loaded("a".to_string());
    assert!(report.finish(&names(&["a"]), &config).is_ok());
    let mut report = StrictLoadReport::default();
    report.record_unused("k".to_string());
    assert!(report.finish(&names(&[]), &config).is_err());
}

#[test]
fn error_messages() {
    assert_eq!(
        Error::UnsupportedModelType("llama".to_string()).message("src/a.rs:1:2"),
        "unsupported model type: llama"
    );
    assert_eq!(
        Error::UnsupportedArchitecture("moe".to_string()).message("src/a.rs:1:2"),
        "unsupported model architecture: moe"
    );
    assert_eq!(
        Error::Exception(Exception::custom("so \"broken\"")).message("src/a.rs:1:2"),
        "\"so \\\"broken\\\"\" at src/a.rs:1:2"
    );
    assert_eq!(exception_text("\"it\"", "a.rs:3:4"), "\"it\" at a.rs:3:4");
    let error = Error::StrictLoadValidation {
        missing: names(&["a"]),
        unused: names(&[]),
    };
    assert_eq!(error.message(""), "weights do not match the model's parameters");
}
