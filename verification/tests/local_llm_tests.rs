use handy::helper::{
    context_size, finish_generation, generation_budget, gpu_layers, helper_response,
    is_final_chunk, thread_count,
};
use handy::local_llm::{
    check_import_name, check_model_name, helper_outcome, import_temp_name, invalid_helper_json,
    list_model_files, model_not_installed, short_stderr, valid_model_filename, HelperResponse,
};

#[test]
fn accepts_only_plain_gguf_filenames() {
    assert!(valid_model_filename("Qwen2.5-1.5B-Instruct-Q4_K_M.gguf"));
    assert!(valid_model_filename("MODEL.GGUF"));
    assert!(!valid_model_filename("../model.gguf"));
    assert!(!valid_model_filename("folder/model.gguf"));
    assert!(!valid_model_filename("model.bin"));
}

#[test]
fn model_filename_edge_cases() {
    assert!(!valid_model_filename(""));
    assert!(!valid_model_filename(".gguf"));
    assert!(!valid_model_filename("gguf"));
    assert!(valid_model_filename("a.b.GgUf"));
    assert!(!valid_model_filename("model.gguf/"));
    assert!(!valid_model_filename("model.gguf.part"));
    assert!(valid_model_filename("..gguf"));
}

#[test]
fn model_name_errors() {
    assert!(check_model_name("m.gguf").is_ok());
    assert_eq!(
        check_model_name("m.bin").err().as_deref(),
        Some("Local LLM model must be a GGUF file in Handy's model directory")
    );
    assert_eq!(model_not_installed("m.gguf"), "Local LLM model is not installed: m.gguf");
    assert_eq!(
        check_import_name("x.txt").err().as_deref(),
        Some("Only .gguf local LLM models are supported")
    );
    assert_eq!(import_temp_name("m.gguf", 4242), ".m.gguf.4242.part");
}

#[test]
fn listing_keeps_models_sorted_case_insensitively() {
    let names = vec![
        "b.gguf".to_string(),
        "notes.txt".to_string(),
        "A.GGUF".to_string(),
        "c.gguf".to_string(),
        "a.gguf".to_string(),
    ];
    assert_eq!(
        list_model_files(names),
        vec![
            "A.GGUF".to_string(),
            "a.gguf".to_string(),
            "b.gguf".to_string(),
            "c.gguf".to_string()
        ]
    );
    assert_eq!(list_model_files(vec![]), Vec::<String>::new());
    assert_eq!(
        list_model_files(vec!["Zeta.gguf".to_string(), "alpha.gguf".to_string(), "Beta.GGUF".to_string()]),
        vec!["alpha.gguf".to_string(), "Beta.GGUF".to_string(), "Zeta.gguf".to_string()]
    );
}

#[test]
fn stderr_is_shortened_and_trimmed() {
    assert_eq!(short_stderr(b"  boom \n"), "boom");
    let long = "x".repeat(2500);
    assert_eq!(short_stderr(long.as_bytes()).len(), 2000);
    assert_eq!(short_stderr(&[0x66, 0xff, 0x67]), "f\u{fffd}g");
}

#[test]
fn helper_outcomes() {
    let ok = HelperResponse { ok: true, text: Some("  done \n".to_string()), error: None };
    assert_eq!(helper_outcome(true, "exit status: 0", ok, b"").unwrap(), "done");

    let empty = HelperResponse { ok: true, text: Some("   ".to_string()), error: None };
    assert_eq!(
        helper_outcome(true, "exit status: 0", empty, b"").err().as_deref(),
        Some("Local LLM helper returned an empty response")
    );

    let failed = HelperResponse { ok: false, text: None, error: Some("no model".to_string()) };
    assert_eq!(helper_outcome(false, "exit status: 2", failed, b"").err().as_deref(), Some("no model"));

    let blank = HelperResponse { ok: false, text: None, error: Some(" ".to_string()) };
    assert_eq!(
        helper_outcome(false, "exit status: 2", blank, b" trace ").err().as_deref(),
        Some("trace")
    );

    let silent = HelperResponse { ok: true, text: Some("x".to_string()), error: None };
    assert_eq!(
        helper_outcome(false, "signal: 9", silent, b"").err().as_deref(),
        Some("helper exited with status signal: 9")
    );

    assert_eq!(
        invalid_helper_json("EOF while parsing", b""),
        "Local LLM helper returned invalid JSON: EOF while parsing"
    );
    assert_eq!(
        invalid_helper_json("EOF", b"panic"),
        "Local LLM helper returned invalid JSON: EOF; stderr: panic"
    );
}

#[test]
fn helper_parameters() {
    assert_eq!(gpu_layers(true), 0);
    assert_eq!(gpu_layers(false), 999);
    assert_eq!(context_size(100), 512);
    assert_eq!(context_size(2048), 2048);
    assert_eq!(context_size(32768), 4096);
    assert_eq!(thread_count(Some(2)), 2);
    assert_eq!(thread_count(Some(16)), 4);
    assert_eq!(thread_count(None), 4);
}

#[test]
fn generation_budget_follows_prompt_length() {
    assert_eq!(generation_budget(10, 4096).unwrap(), 96);
    assert_eq!(generation_budget(200, 4096).unwrap(), 200);
    assert_eq!(generation_budget(1000, 4096).unwrap(), 384);
    assert_eq!(generation_budget(4000, 4096).unwrap(), 95);
    assert_eq!(
        generation_budget(0, 4096).err().as_deref(),
        Some("Local LLM prompt tokenized to zero tokens")
    );
    assert_eq!(
        generation_budget(4090, 4096).err().as_deref(),
        Some("Transcription is too long for this local model (4090 prompt tokens, 4096 context tokens)")
    );
}

#[test]
fn only_last_prompt_chunk_is_final() {
    let total = 600;
    let finals: Vec<usize> = (0..3).filter(|k| is_final_chunk(*k, total)).collect();
    assert_eq!(finals, vec![2]);
    assert!(is_final_chunk(0, 256));
    assert!(!is_final_chunk(0, 257));
}

#[test]
fn generation_results() {
    assert_eq!(finish_generation(" text\n", true, 96).unwrap(), "text");
    assert_eq!(
        finish_generation("x", false, 96).err().as_deref(),
        Some("Local LLM exceeded the bounded output budget of 96 tokens")
    );
    assert_eq!(
        finish_generation(" ", true, 96).err().as_deref(),
        Some("Local LLM returned an empty response")
    );
    let r = helper_response(Ok("t".to_string()));
    assert!(r.ok && r.text.as_deref() == Some("t") && r.error.is_none());
    let r = helper_response(Err("e".to_string()));
    assert!(!r.ok && r.text.is_none() && r.error.as_deref() == Some("e"));
}
