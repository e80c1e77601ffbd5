//! Decisions of the one-shot local LLM helper process: model and context
//! parameters, the output budget, prompt batching and the final answer.
//! The llama.cpp calls themselves are made by the helper binary.

use vstd::prelude::*;
use crate::local_llm::HelperResponse;
use crate::text::{self, trim, decimal};

verus! {

broadcast use vstd::string::group_string_axioms;

/// Largest context the helper asks for.
pub const CONTEXT_TOKENS: u32 = 4096;

/// Prompt tokens decoded per batch.
pub const PROMPT_BATCH_TOKENS: usize = 256;

/// Upper bound of generated tokens.
pub const MAX_NEW_TOKENS: usize = 384;

/// Lower bound of the output budget.
pub const MIN_NEW_TOKENS: usize = 96;

/// GPU layers to offload: none when the CPU is forced, else all.
pub fn gpu_layers(force_cpu: bool) -> (r: u32)
    ensures
        r == (if force_cpu {
            0u32
        } else {
            999u32
        }),
{
    if force_cpu {
        0
    } else {
        999
    }
}

/// Context size: the model's training context, at least 512, at most 4096.
pub fn context_size(n_ctx_train: u32) -> (r: u32)
    ensures
        r == (if n_ctx_train < 512 {
            512
        } else if n_ctx_train > CONTEXT_TOKENS {
            CONTEXT_TOKENS
        } else {
            n_ctx_train
        }),
        512 <= r <= CONTEXT_TOKENS,
{
    let floor = if n_ctx_train < 512 {
        512
    } else {
        n_ctx_train
    };
    if floor < CONTEXT_TOKENS {
        floor
    } else {
        CONTEXT_TOKENS
    }
}

/// Threads for decoding: the available parallelism, at most 4 (4 when it
/// is unknown).
pub fn thread_count(available: Option<usize>) -> (r: i32)
    ensures
        match available {
            Some(n) => r == (if n < 4 {
                n as i32
            } else {
                4
            }),
            None => r == 4,
        },
{
    match available {
        Some(n) => if n < 4 {
            n as i32
        } else {
            4
        },
        None => 4,
    }
}

/// The output budget for a prompt of `prompt` tokens in a context of
/// `max_context` tokens, or why there is none.
pub open spec fn budget_of(prompt: nat, max_context: nat) -> Result<nat, Seq<char>> {
    if prompt == 0 {
        Err("Local LLM prompt tokenized to zero tokens"@)
    } else if prompt + 8 >= max_context {
        Err(
            "Transcription is too long for this local model ("@ + decimal(prompt)
                + " prompt tokens, "@ + decimal(max_context) + " context tokens)"@,
        )
    } else {
        let clamped = if prompt < MIN_NEW_TOKENS {
            MIN_NEW_TOKENS as nat
        } else if prompt > MAX_NEW_TOKENS {
            MAX_NEW_TOKENS as nat
        } else {
            prompt
        };
        let room = (max_context - prompt - 1) as nat;
        Ok(
            if clamped < room {
                clamped
            } else {
                room
            },
        )
    }
}

/// How many tokens may be generated after a prompt of `prompt_tokens`
/// tokens in a context of `n_ctx` tokens: roughly as many as the prompt
/// (96 to 384), and never past the context.
pub fn generation_budget(prompt_tokens: usize, n_ctx: u32) -> (r: Result<usize, String>)
    ensures
        match (r, budget_of(prompt_tokens as nat, n_ctx as nat)) {
            (Ok(b), Ok(s)) => b == s,
            (Err(e), Err(s)) => e@ == s,
            _ => false,
        },
        r matches Ok(b) ==> 1 <= b <= MAX_NEW_TOKENS && prompt_tokens + b < n_ctx,
{
    if prompt_tokens == 0 {
        return Err("Local LLM prompt tokenized to zero tokens".to_owned());
    }
    let max_context = n_ctx as usize;
    if prompt_tokens >= max_context || max_context - prompt_tokens <= 8 {
        let mut v: Vec<char> = Vec::new();
        text::push_str_chars(&mut v, "Transcription is too long for this local model (");
        let p = text::decimal_chars(prompt_tokens as u128);
        text::push_chars(&mut v, &p);
        text::push_str_chars(&mut v, " prompt tokens, ");
        let m = text::decimal_chars(max_context as u128);
        text::push_chars(&mut v, &m);
        text::push_str_chars(&mut v, " context tokens)");
        return Err(text::string_from_chars(v.as_slice()));
    }
    let clamped = if prompt_tokens < MIN_NEW_TOKENS {
        MIN_NEW_TOKENS
    } else if prompt_tokens > MAX_NEW_TOKENS {
        MAX_NEW_TOKENS
    } else {
        prompt_tokens
    };
    let room = max_context - prompt_tokens - 1;
    Ok(
        if clamped < room {
            clamped
        } else {
            room
        },
    )
}

/// Whether the prompt batch `chunk_index` (of 256 tokens each) is the last
/// one of a prompt of `total_tokens` tokens; only its last token asks for
/// logits.
pub fn is_final_chunk(chunk_index: usize, total_tokens: usize) -> (r: bool)
    ensures
        r == ((chunk_index + 1) * PROMPT_BATCH_TOKENS >= total_tokens),
{
    ((chunk_index as u128) + 1) * (PROMPT_BATCH_TOKENS as u128) >= (total_tokens as u128)
}

/// Only the last batch of a prompt is final: a batch `j` followed by
/// another batch `k` (one that still starts inside the prompt) is not.
pub proof fn lemma_only_last_chunk_final(total_tokens: nat, j: nat, k: nat)
    requires
        j < k,
        k * PROMPT_BATCH_TOKENS < total_tokens,
    ensures
        (j + 1) * PROMPT_BATCH_TOKENS < total_tokens,
{
    assert((j + 1) * PROMPT_BATCH_TOKENS <= k * PROMPT_BATCH_TOKENS) by (nonlinear_arith)
        requires
            j < k,
    ;
}

/// The answer after generation stopped: an error when the budget ran out
/// before an end-of-generation token, or when the trimmed text is empty.
pub fn finish_generation(output: &str, reached_eog: bool, budget: usize) -> (r: Result<
    String,
    String,
>)
    ensures
        !reached_eog ==> (r matches Err(e) && e@ == "Local LLM exceeded the bounded output budget of "@
            + decimal(budget as nat) + " tokens"@),
        reached_eog && trim(output@).len() == 0 ==> (r matches Err(e) && e@
            == "Local LLM returned an empty response"@),
        reached_eog && trim(output@).len() > 0 ==> (r matches Ok(t) && t@ == trim(output@)),
{
    if !reached_eog {
        let mut v: Vec<char> = Vec::new();
        text::push_str_chars(&mut v, "Local LLM exceeded the bounded output budget of ");
        let d = text::decimal_chars(budget as u128);
        text::push_chars(&mut v, &d);
        text::push_str_chars(&mut v, " tokens");
        return Err(text::string_from_chars(v.as_slice()));
    }
    let t = text::trim_string(output);
    if text::chars_of(t.as_str()).len() == 0 {
        Err("Local LLM returned an empty response".to_owned())
    } else {
        Ok(t)
    }
}

/// The response the helper prints for the result of a run.
pub fn helper_response(result: Result<String, String>) -> (r: HelperResponse)
    ensures
        match result {
            Ok(t) => r.ok && r.text == Some(t) && r.error is None,
            Err(e) => !r.ok && r.text is None && r.error == Some(e),
        },
{
    match result {
        Ok(text) => HelperResponse { ok: true, text: Some(text), error: None },
        Err(error) => HelperResponse { ok: false, text: None, error: Some(error) },
    }
}

} // verus!
