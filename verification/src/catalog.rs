//! Architectures of well-known models, found by name.
//!
//! A model is found by the first pattern that occurs in its name, in whatever case. Patterns stand
//! from the most specific to the least, and looking one up allocates nothing.

use vstd::prelude::*;
use vstd::string::*;

use crate::spec::{AttentionKind, KvDtype, ModelSpec};

verus! {

/// A model with standard attention.
pub open spec fn standard_spec(
    num_layers: u32,
    num_kv_heads: u32,
    head_dim: u32,
    dtype: KvDtype,
    sliding_window: u32,
) -> ModelSpec {
    ModelSpec {
        num_layers,
        num_kv_heads,
        head_dim,
        attention: AttentionKind::Standard,
        dtype,
        kv_lora_rank: 0,
        qk_rope_head_dim: 0,
        sliding_window,
    }
}

/// A model with latent attention.
pub open spec fn latent_spec(
    num_layers: u32,
    kv_lora_rank: u32,
    qk_rope_head_dim: u32,
    dtype: KvDtype,
) -> ModelSpec {
    ModelSpec {
        num_layers,
        num_kv_heads: 0,
        head_dim: 0,
        attention: AttentionKind::Mla,
        dtype,
        kv_lora_rank,
        qk_rope_head_dim,
        sliding_window: 0,
    }
}

/// The known architectures.
pub open spec fn known_specs() -> Seq<ModelSpec> {
    seq![
        // Llama 2.
        standard_spec(32, 32, 128, KvDtype::Fp16, 0),
        standard_spec(40, 40, 128, KvDtype::Fp16, 0),
        standard_spec(80, 8, 128, KvDtype::Fp16, 0),
        // Llama 3.
        standard_spec(32, 8, 128, KvDtype::Bf16, 0),
        standard_spec(80, 8, 128, KvDtype::Bf16, 0),
        standard_spec(126, 8, 128, KvDtype::Bf16, 0),
        // Qwen 2 and 2.5.
        standard_spec(28, 4, 128, KvDtype::Bf16, 0),
        standard_spec(48, 8, 128, KvDtype::Bf16, 0),
        standard_spec(64, 8, 128, KvDtype::Bf16, 0),
        standard_spec(80, 8, 128, KvDtype::Bf16, 0),
        // Mistral and Mixtral, with a sliding window.
        standard_spec(32, 8, 128, KvDtype::Fp16, 4096),
        standard_spec(32, 8, 128, KvDtype::Fp16, 4096),
        standard_spec(56, 8, 128, KvDtype::Fp16, 4096),
        // Gemma 2, with a sliding window.
        standard_spec(42, 8, 256, KvDtype::Bf16, 4096),
        standard_spec(46, 16, 256, KvDtype::Bf16, 4096),
        // DeepSeek V2-Lite, and V3 with R1.
        latent_spec(27, 512, 64, KvDtype::Bf16),
        latent_spec(61, 512, 64, KvDtype::Bf16),
        // ChatGLM3.
        standard_spec(28, 2, 128, KvDtype::Fp16, 0),
    ]
}

/// Patterns of model names, in the order in which they are tried, each with the position of its
/// architecture.
pub open spec fn known_names() -> Seq<(Seq<char>, int)> {
    seq![
        ("llama-2-7b"@, 0),
        ("llama2-7b"@, 0),
        ("llama-2-13b"@, 1),
        ("llama2-13b"@, 1),
        ("llama-2-70b"@, 2),
        ("llama2-70b"@, 2),
        ("llama-3.1-405b"@, 5),
        ("llama-3.3-70b"@, 4),
        ("llama-3.1-70b"@, 4),
        ("llama-3-70b"@, 4),
        ("llama-3.1-8b"@, 3),
        ("llama-3-8b"@, 3),
        ("qwen2.5-72b"@, 9),
        ("qwen2.5-32b"@, 8),
        ("qwen2.5-14b"@, 7),
        ("qwen2.5-7b"@, 6),
        ("qwen2.5-coder"@, 6),
        ("qwen2-72b"@, 9),
        ("qwen2-7b"@, 6),
        ("mixtral-8x22b"@, 12),
        ("mixtral-8x7b"@, 11),
        ("mistral-large"@, 11),
        ("mistral-7b"@, 10),
        ("gemma-2-27b"@, 14),
        ("gemma-2-9b"@, 13),
        ("deepseek-r1"@, 16),
        ("deepseek-v3"@, 16),
        ("deepseek-v2-lite"@, 15),
        ("deepseek-v2"@, 15),
        ("chatglm3"@, 17),
        ("glm-3"@, 17),
    ]
}

/// A byte, in lower case if it is an ASCII letter.
pub open spec fn lower(byte: u8) -> u8 {
    if 0x41 <= byte <= 0x5a {
        (byte + 32) as u8
    } else {
        byte
    }
}

/// Whether `needle` stands in `bytes` at `at`, when letters there are read in lower case.
pub open spec fn stands_at(bytes: Seq<u8>, needle: Seq<u8>, at: int) -> bool {
    &&& 0 <= at
    &&& at + needle.len() <= bytes.len()
    &&& forall|j: int| 0 <= j < needle.len() ==> lower(bytes[at + j]) == #[trigger] needle[j]
}

/// Whether `needle` stands somewhere in `bytes`, when letters there are read in lower case.
pub open spec fn occurs(bytes: Seq<u8>, needle: Seq<u8>) -> bool {
    exists|at: int| #[trigger] stands_at(bytes, needle, at)
}

/// Whether `needle` occurs in `text` when letters there are read in lower case, byte by byte.
pub open spec fn occurs_in(text: Seq<char>, needle: Seq<char>) -> bool {
    occurs(vstd::utf8::encode_utf8(text), vstd::utf8::encode_utf8(needle))
}

/// What the first of `names` that occurs in `model` stands for.
pub open spec fn found_in(names: Seq<(Seq<char>, int)>, model: Seq<char>) -> Option<ModelSpec>
    decreases names.len(),
{
    if names.len() == 0 {
        None
    } else if occurs_in(model, names[0].0) {
        Some(known_specs()[names[0].1])
    } else {
        found_in(names.drop_first(), model)
    }
}

/// The known architecture of a model.
pub open spec fn known_spec(model: Seq<char>) -> Option<ModelSpec> {
    found_in(known_names(), model)
}

/// The known architectures.
pub fn builtin_specs_raw() -> (specs: &'static [ModelSpec])
    ensures
        specs@ == known_specs(),
{
    &[
        // Llama 2.
        ModelSpec {
            num_layers: 32,
            num_kv_heads: 32,
            head_dim: 128,
            attention: AttentionKind::Standard,
            dtype: KvDtype::Fp16,
            kv_lora_rank: 0,
            qk_rope_head_dim: 0,
            sliding_window: 0,
        },
        ModelSpec {
            num_layers: 40,
            num_kv_heads: 40,
            head_dim: 128,
            attention: AttentionKind::Standard,
            dtype: KvDtype::Fp16,
            kv_lora_rank: 0,
            qk_rope_head_dim: 0,
            sliding_window: 0,
        },
        ModelSpec {
            num_layers: 80,
            num_kv_heads: 8,
            head_dim: 128,
            attention: AttentionKind::Standard,
            dtype: KvDtype::Fp16,
            kv_lora_rank: 0,
            qk_rope_head_dim: 0,
            sliding_window: 0,
        },
        // Llama 3.
        ModelSpec {
            num_layers: 32,
            num_kv_heads: 8,
            head_dim: 128,
            attention: AttentionKind::Standard,
            dtype: KvDtype::Bf16,
            kv_lora_rank: 0,
            qk_rope_head_dim: 0,
            sliding_window: 0,
        },
        ModelSpec {
            num_layers: 80,
            num_kv_heads: 8,
            head_dim: 128,
            attention: AttentionKind::Standard,
            dtype: KvDtype::Bf16,
            kv_lora_rank: 0,
            qk_rope_head_dim: 0,
            sliding_window: 0,
        },
        ModelSpec {
            num_layers: 126,
            num_kv_heads: 8,
            head_dim: 128,
            attention: AttentionKind::Standard,
            dtype: KvDtype::Bf16,
            kv_lora_rank: 0,
            qk_rope_head_dim: 0,
            sliding_window: 0,
        },
        // Qwen 2 and 2.5.
        ModelSpec {
            num_layers: 28,
            num_kv_heads: 4,
            head_dim: 128,
            attention: AttentionKind::Standard,
            dtype: KvDtype::Bf16,
            kv_lora_rank: 0,
            qk_rope_head_dim: 0,
            sliding_window: 0,
        },
        ModelSpec {
            num_layers: 48,
            num_kv_heads: 8,
            head_dim: 128,
            attention: AttentionKind::Standard,
            dtype: KvDtype::Bf16,
            kv_lora_rank: 0,
            qk_rope_head_dim: 0,
            sliding_window: 0,
        },
        ModelSpec {
            num_layers: 64,
            num_kv_heads: 8,
            head_dim: 128,
            attention: AttentionKind::Standard,
            dtype: KvDtype::Bf16,
            kv_lora_rank: 0,
            qk_rope_head_dim: 0,
            sliding_window: 0,
        },
        ModelSpec {
            num_layers: 80,
            num_kv_heads: 8,
            head_dim: 128,
            attention: AttentionKind::Standard,
            dtype: KvDtype::Bf16,
            kv_lora_rank: 0,
            qk_rope_head_dim: 0,
            sliding_window: 0,
        },
        // Mistral and Mixtral, with a sliding window.
        ModelSpec {
            num_layers: 32,
            num_kv_heads: 8,
            head_dim: 128,
            attention: AttentionKind::Standard,
            dtype: KvDtype::Fp16,
            kv_lora_rank: 0,
            qk_rope_head_dim: 0,
            sliding_window: 4096,
        },
        ModelSpec {
            num_layers: 32,
            num_kv_heads: 8,
            head_dim: 128,
            attention: AttentionKind::Standard,
            dtype: KvDtype::Fp16,
            kv_lora_rank: 0,
            qk_rope_head_dim: 0,
            sliding_window: 4096,
        },
        ModelSpec {
            num_layers: 56,
            num_kv_heads: 8,
            head_dim: 128,
            attention: AttentionKind::Standard,
            dtype: KvDtype::Fp16,
            kv_lora_rank: 0,
            qk_rope_head_dim: 0,
            sliding_window: 4096,
        },
        // Gemma 2, with a sliding window.
        ModelSpec {
            num_layers: 42,
            num_kv_heads: 8,
            head_dim: 256,
            attention: AttentionKind::Standard,
            dtype: KvDtype::Bf16,
            kv_lora_rank: 0,
            qk_rope_head_dim: 0,
            sliding_window: 4096,
        },
        ModelSpec {
            num_layers: 46,
            num_kv_heads: 16,
            head_dim: 256,
            attention: AttentionKind::Standard,
            dtype: KvDtype::Bf16,
            kv_lora_rank: 0,
            qk_rope_head_dim: 0,
            sliding_window: 4096,
        },
        // DeepSeek V2-Lite, and V3 with R1.
        ModelSpec {
            num_layers: 27,
            num_kv_heads: 0,
            head_dim: 0,
            attention: AttentionKind::Mla,
            dtype: KvDtype::Bf16,
            kv_lora_rank: 512,
            qk_rope_head_dim: 64,
            sliding_window: 0,
        },
        ModelSpec {
            num_layers: 61,
            num_kv_heads: 0,
            head_dim: 0,
            attention: AttentionKind::Mla,
            dtype: KvDtype::Bf16,
            kv_lora_rank: 512,
            qk_rope_head_dim: 64,
            sliding_window: 0,
        },
        // ChatGLM3.
        ModelSpec {
            num_layers: 28,
            num_kv_heads: 2,
            head_dim: 128,
            attention: AttentionKind::Standard,
            dtype: KvDtype::Fp16,
            kv_lora_rank: 0,
            qk_rope_head_dim: 0,
            sliding_window: 0,
        },
    ]
}

/// Names that are read alike in both forms.
pub open spec fn same_names(names: Seq<(&'static str, usize)>) -> bool {
    &&& names.len() == known_names().len()
    &&& forall|i: int|
        0 <= i < names.len() ==> (#[trigger] names[i]).0@ == known_names()[i].0 && names[i].1
            == known_names()[i].1
}

/// Patterns of model names, each with the number of the spec that it stands for.
pub fn builtin_name_map() -> (names: &'static [(&'static str, usize)])
    ensures
        same_names(names@),
{
    &[
        ("llama-2-7b", 0),
        ("llama2-7b", 0),
        ("llama-2-13b", 1),
        ("llama2-13b", 1),
        ("llama-2-70b", 2),
        ("llama2-70b", 2),
        ("llama-3.1-405b", 5),
        ("llama-3.3-70b", 4),
        ("llama-3.1-70b", 4),
        ("llama-3-70b", 4),
        ("llama-3.1-8b", 3),
        ("llama-3-8b", 3),
        ("qwen2.5-72b", 9),
        ("qwen2.5-32b", 8),
        ("qwen2.5-14b", 7),
        ("qwen2.5-7b", 6),
        ("qwen2.5-coder", 6),
        ("qwen2-72b", 9),
        ("qwen2-7b", 6),
        ("mixtral-8x22b", 12),
        ("mixtral-8x7b", 11),
        ("mistral-large", 11),
        ("mistral-7b", 10),
        ("gemma-2-27b", 14),
        ("gemma-2-9b", 13),
        ("deepseek-r1", 16),
        ("deepseek-v3", 16),
        ("deepseek-v2-lite", 15),
        ("deepseek-v2", 15),
        ("chatglm3", 17),
        ("glm-3", 17),
    ]
}

/// Every pattern stands for a known architecture.
pub proof fn every_pattern_stands_for_a_spec(i: int)
    requires
        0 <= i < known_names().len(),
    ensures
        0 <= known_names()[i].1 < known_specs().len(),
{
}

fn lower_case(byte: u8) -> (low: u8)
    ensures
        low == lower(byte),
{
    if byte >= 0x41 && byte <= 0x5a {
        byte + 32
    } else {
        byte
    }
}

/// Whether `needle`, which is in lower case, occurs in `haystack` in whatever case.
pub fn contains_ascii_ci(haystack: &str, needle: &str) -> (found: bool)
    ensures
        found == occurs_in(haystack@, needle@),
{
    let bytes: &[u8] = haystack.as_bytes();
    let wanted: &[u8] = needle.as_bytes();
    let len: usize = bytes.len();
    let size: usize = wanted.len();
    if size > len {
        return false;
    }
    let last: usize = len - size;
    let mut at: usize = 0;
    loop
        invariant
            at <= last,
            last + size == len,
            len == bytes@.len(),
            size == wanted@.len(),
            bytes@ == vstd::utf8::encode_utf8(haystack@),
            wanted@ == vstd::utf8::encode_utf8(needle@),
            forall|k: int| 0 <= k < at ==> !#[trigger] stands_at(bytes@, wanted@, k),
        decreases last - at,
    {
        let mut j: usize = 0;
        while j < size && lower_case(bytes[at + j]) == wanted[j]
            invariant
                j <= size,
                at + size <= len,
                len == bytes@.len(),
                size == wanted@.len(),
                forall|k: int| 0 <= k < j ==> lower(bytes@[at + k]) == #[trigger] wanted@[k],
            decreases size - j,
        {
            j = j + 1;
        }
        if j == size {
            assert(stands_at(bytes@, wanted@, at as int));
            return true;
        }
        assert(!stands_at(bytes@, wanted@, at as int)) by {
            assert(wanted@[j as int] != lower(bytes@[at + j]));
        }
        if at == last {
            return false;
        }
        at = at + 1;
    }
}

/// The known architecture of a model.
pub fn lookup_builtin(model: &str) -> (spec: Option<ModelSpec>)
    ensures
        spec == known_spec(model@),
{
    let names: &'static [(&'static str, usize)] = builtin_name_map();
    let specs: &'static [ModelSpec] = builtin_specs_raw();
    let len: usize = names.len();
    let mut i: usize = 0;
    proof {
        assert(known_names().skip(0) =~= known_names());
    }
    while i < len
        invariant
            i <= len,
            len == names@.len(),
            same_names(names@),
            specs@ == known_specs(),
            known_spec(model@) == found_in(known_names().skip(i as int), model@),
        decreases len - i,
    {
        let (pattern, index): (&'static str, usize) = names[i];
        proof {
            every_pattern_stands_for_a_spec(i as int);
            assert(known_names().skip(i as int)[0] == known_names()[i as int]);
            assert(known_names().skip(i as int).drop_first() =~= known_names().skip(i + 1));
        }
        if contains_ascii_ci(model, pattern) {
            return Some(specs[index]);
        }
        i = i + 1;
    }
    None
}

/// All patterns, each with its architecture.
pub fn builtin_entries() -> (entries: Vec<(&'static str, ModelSpec)>)
    ensures
        entries@.len() == known_names().len(),
        forall|i: int|
            0 <= i < entries@.len() ==> (#[trigger] entries@[i]).0@ == known_names()[i].0
                && entries@[i].1 == known_specs()[known_names()[i].1],
        entries@.len() > 0,
        forall|i: int|
            0 <= i < entries@.len() ==> (#[trigger] entries@[i]).0@.len() > 0 && all_lower(
                entries@[i].0@,
            ) && known_spec(entries@[i].0@) == Some(entries@[i].1),
{
    let names: &'static [(&'static str, usize)] = builtin_name_map();
    let specs: &'static [ModelSpec] = builtin_specs_raw();
    let len: usize = names.len();
    let mut entries: Vec<(&'static str, ModelSpec)> = Vec::new();
    let mut i: usize = 0;
    while i < len
        invariant
            i <= len,
            len == names@.len(),
            same_names(names@),
            specs@ == known_specs(),
            entries@.len() == i,
            forall|k: int|
                0 <= k < i ==> (#[trigger] entries@[k]).0@ == known_names()[k].0 && entries@[k].1
                    == known_specs()[known_names()[k].1],
        decreases len - i,
    {
        let (pattern, index): (&'static str, usize) = names[i];
        proof {
            every_pattern_stands_for_a_spec(i as int);
        }
        entries.push((pattern, specs[index]));
        i = i + 1;
    }
    proof {
        assert forall|k: int| 0 <= k < entries@.len() implies (#[trigger] entries@[k]).0@.len() > 0
            && all_lower(entries@[k].0@) && known_spec(entries@[k].0@) == Some(entries@[k].1) by {
            patterns_are_in_lower_case(k);
            every_pattern_finds_its_own_architecture(k);
        }
    }
    entries
}

/// Whether a character is ASCII and no capital letter.
pub open spec fn is_lower(c: char) -> bool {
    '\0' <= c && c <= '\u{7f}' && !('A' <= c && c <= 'Z')
}

/// Whether a text is ASCII without capital letters.
pub open spec fn all_lower(text: Seq<char>) -> bool {
    forall|i: int| 0 <= i < text.len() ==> is_lower(#[trigger] text[i])
}

/// Whether what is left of `needle` from position `k` on stands in `text` where it would if
/// `needle` stood at `at`.
spec fn goes_on(text: Seq<char>, needle: Seq<char>, at: nat, k: nat) -> bool
    decreases needle.len() - k,
{
    k >= needle.len() || (text[(at + k) as int] == needle[k as int] && goes_on(
        text,
        needle,
        at,
        k + 1,
    ))
}

/// Whether `needle` stands in `text` at `at` or later.
spec fn stands_from(text: Seq<char>, needle: Seq<char>, at: nat) -> bool
    decreases text.len() + 1 - at,
{
    at + needle.len() <= text.len() && (goes_on(text, needle, at, 0) || stands_from(
        text,
        needle,
        at + 1,
    ))
}

/// Position of the first pattern, from `from` on, that stands in `text`.
spec fn first_standing(text: Seq<char>, from: nat) -> nat
    decreases known_names().len() - from,
{
    if from >= known_names().len() || stands_from(text, known_names()[from as int].0, 0) {
        from
    } else {
        first_standing(text, from + 1)
    }
}

proof fn lemma_goes_on(text: Seq<char>, needle: Seq<char>, at: nat, k: nat)
    requires
        at + needle.len() <= text.len(),
        k <= needle.len(),
    ensures
        goes_on(text, needle, at, k) == (forall|j: int|
            k <= j < needle.len() ==> text[at + j] == #[trigger] needle[j]),
    decreases needle.len() - k,
{
    if k < needle.len() {
        lemma_goes_on(text, needle, at, k + 1);
        if goes_on(text, needle, at, k + 1) && text[(at + k) as int] == needle[k as int] {
            assert forall|j: int| k <= j < needle.len() implies text[at + j]
                == #[trigger] needle[j] by {}
        }
    }
}

proof fn lemma_lower_is_ascii(text: Seq<char>)
    requires
        all_lower(text),
    ensures
        vstd::utf8::is_ascii_chars(text),
{
    assert forall|i: int| 0 <= i < text.len() implies '\0' <= #[trigger] text[i] <= '\u{7f}' by {
        assert(is_lower(text[i]));
    }
}

proof fn lemma_stands_from(text: Seq<char>, needle: Seq<char>, at: nat)
    requires
        all_lower(text),
        all_lower(needle),
    ensures
        stands_from(text, needle, at) == exists|from: int|
            at <= from && #[trigger] stands_at(
                vstd::utf8::encode_utf8(text),
                vstd::utf8::encode_utf8(needle),
                from,
            ),
    decreases text.len() + 1 - at,
{
    let bytes = vstd::utf8::encode_utf8(text);
    let wanted = vstd::utf8::encode_utf8(needle);
    lemma_lower_is_ascii(text);
    lemma_lower_is_ascii(needle);
    vstd::utf8::is_ascii_chars_encode_utf8(text);
    vstd::utf8::is_ascii_chars_encode_utf8(needle);
    if at + needle.len() <= text.len() {
        lemma_goes_on(text, needle, at, 0);
        lemma_stands_from(text, needle, at + 1);
        assert(goes_on(text, needle, at, 0) == stands_at(bytes, wanted, at as int)) by {
            assert forall|j: int| 0 <= j < needle.len() implies (text[at + j] == needle[j]) == (
            lower(bytes[at + j]) == #[trigger] wanted[j]) by {
                assert(is_lower(text[at + j]));
                assert(is_lower(needle[j]));
            }
            if goes_on(text, needle, at, 0) {
                assert forall|j: int| 0 <= j < wanted.len() implies lower(bytes[at + j])
                    == #[trigger] wanted[j] by {
                    assert(text[at + j] == needle[j]);
                }
            }
            if stands_at(bytes, wanted, at as int) {
                assert forall|j: int| 0 <= j < needle.len() implies text[at + j]
                    == #[trigger] needle[j] by {
                    assert(lower(bytes[at + j]) == wanted[j]);
                }
            }
        }
    }
}

proof fn lemma_found_in(names: Seq<(Seq<char>, int)>, model: Seq<char>, i: int)
    requires
        0 <= i < names.len(),
        occurs_in(model, names[i].0),
        forall|j: int| 0 <= j < i ==> !occurs_in(model, (#[trigger] names[j]).0),
    ensures
        found_in(names, model) == Some(known_specs()[names[i].1]),
    decreases names.len(),
{
    if i > 0 {
        assert(!occurs_in(model, names[0].0));
        let rest = names.drop_first();
        assert forall|j: int| 0 <= j < i - 1 implies !occurs_in(model, (#[trigger] rest[j]).0) by {
            assert(rest[j] == names[j + 1]);
        }
        lemma_found_in(rest, model, i - 1);
    }
}

proof fn lemma_first_standing(text: Seq<char>, from: nat)
    requires
        from <= known_names().len(),
    ensures
        from <= first_standing(text, from) <= known_names().len(),
        forall|j: int|
            from <= j < first_standing(text, from) ==> !stands_from(
                text,
                (#[trigger] known_names()[j]).0,
                0,
            ),
    decreases known_names().len() - from,
{
    if from < known_names().len() && !stands_from(text, known_names()[from as int].0, 0) {
        lemma_first_standing(text, from + 1);
    }
}

/// Whether a pattern is a text without capital letters, not empty, and the first that stands in
/// itself is the one at `i`.
spec fn sound(pattern: Seq<char>, i: nat) -> bool {
    pattern.len() > 0 && all_lower(pattern) && first_standing(pattern, 0) == i
}

#[verifier::rlimit(60)]
proof fn lemma_patterns()
    ensures
        forall|i: int|
            0 <= i < known_names().len() ==> sound((#[trigger] known_names()[i]).0, i as nat),
{
    reveal_strlit("llama-2-7b");
    reveal_strlit("llama2-7b");
    reveal_strlit("llama-2-13b");
    reveal_strlit("llama2-13b");
    reveal_strlit("llama-2-70b");
    reveal_strlit("llama2-70b");
    reveal_strlit("llama-3.1-405b");
    reveal_strlit("llama-3.3-70b");
    reveal_strlit("llama-3.1-70b");
    reveal_strlit("llama-3-70b");
    reveal_strlit("llama-3.1-8b");
    reveal_strlit("llama-3-8b");
    reveal_strlit("qwen2.5-72b");
    reveal_strlit("qwen2.5-32b");
    reveal_strlit("qwen2.5-14b");
    reveal_strlit("qwen2.5-7b");
    reveal_strlit("qwen2.5-coder");
    reveal_strlit("qwen2-72b");
    reveal_strlit("qwen2-7b");
    reveal_strlit("mixtral-8x22b");
    reveal_strlit("mixtral-8x7b");
    reveal_strlit("mistral-large");
    reveal_strlit("mistral-7b");
    reveal_strlit("gemma-2-27b");
    reveal_strlit("gemma-2-9b");
    reveal_strlit("deepseek-r1");
    reveal_strlit("deepseek-v3");
    reveal_strlit("deepseek-v2-lite");
    reveal_strlit("deepseek-v2");
    reveal_strlit("chatglm3");
    reveal_strlit("glm-3");
    reveal_with_fuel(stands_from, 18);
    reveal_with_fuel(goes_on, 18);
    reveal_with_fuel(first_standing, 32);
    assert(sound("llama-2-7b"@, 0));
    assert(sound("llama2-7b"@, 1));
    assert(sound("llama-2-13b"@, 2));
    assert(sound("llama2-13b"@, 3));
    assert(sound("llama-2-70b"@, 4));
    assert(sound("llama2-70b"@, 5));
    assert(sound("llama-3.1-405b"@, 6));
    assert(sound("llama-3.3-70b"@, 7));
    assert(sound("llama-3.1-70b"@, 8));
    assert(sound("llama-3-70b"@, 9));
    assert(sound("llama-3.1-8b"@, 10));
    assert(sound("llama-3-8b"@, 11));
    assert(sound("qwen2.5-72b"@, 12));
    assert(sound("qwen2.5-32b"@, 13));
    assert(sound("qwen2.5-14b"@, 14));
    assert(sound("qwen2.5-7b"@, 15));
    assert(sound("qwen2.5-coder"@, 16));
    assert(sound("qwen2-72b"@, 17));
    assert(sound("qwen2-7b"@, 18));
    assert(sound("mixtral-8x22b"@, 19));
    assert(sound("mixtral-8x7b"@, 20));
    assert(sound("mistral-large"@, 21));
    assert(sound("mistral-7b"@, 22));
    assert(sound("gemma-2-27b"@, 23));
    assert(sound("gemma-2-9b"@, 24));
    assert(sound("deepseek-r1"@, 25));
    assert(sound("deepseek-v3"@, 26));
    assert(sound("deepseek-v2-lite"@, 27));
    assert(sound("deepseek-v2"@, 28));
    assert(sound("chatglm3"@, 29));
    assert(sound("glm-3"@, 30));
}

/// Every pattern is a text without capital letters, and not empty.
pub proof fn patterns_are_in_lower_case(i: int)
    requires
        0 <= i < known_names().len(),
    ensures
        known_names()[i].0.len() > 0,
        all_lower(known_names()[i].0),
{
    lemma_patterns();
    assert(sound(known_names()[i].0, i as nat));
}

/// Every pattern finds the architecture that it stands for: no pattern before it occurs in it.
pub proof fn every_pattern_finds_its_own_architecture(i: int)
    requires
        0 <= i < known_names().len(),
    ensures
        known_spec(known_names()[i].0) == Some(known_specs()[known_names()[i].1]),
{
    let text = known_names()[i].0;
    lemma_patterns();
    assert(sound(text, i as nat));
    patterns_are_in_lower_case(i);
    lemma_first_standing(text, 0);
    assert forall|j: int| 0 <= j < i implies !occurs_in(text, (#[trigger] known_names()[j]).0) by {
        patterns_are_in_lower_case(j);
        lemma_stands_from(text, known_names()[j].0, 0);
        assert(!stands_from(text, known_names()[j].0, 0));
        if occurs_in(text, known_names()[j].0) {
            let at = choose|at: int| #[trigger]
                stands_at(
                    vstd::utf8::encode_utf8(text),
                    vstd::utf8::encode_utf8(known_names()[j].0),
                    at,
                );
            assert(0 <= at);
        }
    }
    assert(occurs_in(text, text)) by {
        lemma_goes_on(text, text, 0, 0);
        lemma_stands_from(text, text, 0);
    }
    lemma_found_in(known_names(), text, i);
}

/// The first pattern that occurs in a name says what architecture it has, and a name in which none
/// occurs has none.
pub proof fn the_first_pattern_that_occurs_counts(model: Seq<char>, i: int)
    requires
        0 <= i <= known_names().len(),
        forall|j: int| 0 <= j < i ==> !occurs_in(model, (#[trigger] known_names()[j]).0),
        i < known_names().len() ==> occurs_in(model, known_names()[i].0),
    ensures
        i < known_names().len() ==> known_spec(model) == Some(known_specs()[known_names()[i].1]),
        i == known_names().len() ==> known_spec(model) is None,
{
    if i < known_names().len() {
        lemma_found_in(known_names(), model, i);
    } else {
        lemma_not_found_in(known_names(), model);
    }
}

proof fn lemma_not_found_in(names: Seq<(Seq<char>, int)>, model: Seq<char>)
    requires
        forall|j: int| 0 <= j < names.len() ==> !occurs_in(model, (#[trigger] names[j]).0),
    ensures
        found_in(names, model) is None,
    decreases names.len(),
{
    if names.len() > 0 {
        assert(!occurs_in(model, names[0].0));
        let rest = names.drop_first();
        assert forall|j: int| 0 <= j < rest.len() implies !occurs_in(
            model,
            (#[trigger] rest[j]).0,
        ) by {
            assert(rest[j] == names[j + 1]);
        }
        lemma_not_found_in(rest, model);
    }
}

/// Whether two letters are the same, but for the case of the first.
pub open spec fn same_but_for_case(shown: char, wanted: char) -> bool {
    shown == wanted || ('A' <= shown <= 'Z' && shown as int + 32 == wanted as int)
}

proof fn lemma_encoded_together(first: Seq<char>, second: Seq<char>)
    ensures
        vstd::utf8::encode_utf8(first + second) == vstd::utf8::encode_utf8(first)
            + vstd::utf8::encode_utf8(second),
    decreases first.len(),
{
    let whole = first + second;
    if first.len() == 0 {
        assert(whole =~= second);
        assert(vstd::utf8::encode_utf8(first) =~= Seq::empty());
        assert(Seq::empty() + vstd::utf8::encode_utf8(second) =~= vstd::utf8::encode_utf8(second));
    } else {
        lemma_encoded_together(first.drop_first(), second);
        assert(whole.drop_first() =~= first.drop_first() + second);
        let head = vstd::utf8::encode_scalar(first[0] as u32);
        assert(whole[0] == first[0]);
        assert(head + (vstd::utf8::encode_utf8(first.drop_first()) + vstd::utf8::encode_utf8(second))
            =~= (head + vstd::utf8::encode_utf8(first.drop_first())) + vstd::utf8::encode_utf8(
            second,
        ));
    }
}

/// A pattern in lower case occurs in a text that holds it, in whatever case, whatever stands before and
/// behind it.
pub proof fn a_pattern_occurs_in_either_case(
    head: Seq<char>,
    shown: Seq<char>,
    tail: Seq<char>,
    pattern: Seq<char>,
)
    requires
        all_lower(pattern),
        shown.len() == pattern.len(),
        forall|i: int|
            0 <= i < pattern.len() ==> same_but_for_case(#[trigger] shown[i], pattern[i]),
    ensures
        occurs_in(head + shown + tail, pattern),
{
    let at = vstd::utf8::encode_utf8(head).len() as int;
    let bytes = vstd::utf8::encode_utf8(head + shown + tail);
    let middle = vstd::utf8::encode_utf8(shown);
    let wanted = vstd::utf8::encode_utf8(pattern);
    lemma_encoded_together(head + shown, tail);
    lemma_encoded_together(head, shown);
    lemma_lower_is_ascii(pattern);
    assert(vstd::utf8::is_ascii_chars(shown)) by {
        assert forall|i: int| 0 <= i < shown.len() implies '\0' <= #[trigger] shown[i]
            <= '\u{7f}' by {
            assert(same_but_for_case(shown[i], pattern[i]));
            assert(is_lower(pattern[i]));
        }
    }
    vstd::utf8::is_ascii_chars_encode_utf8(shown);
    vstd::utf8::is_ascii_chars_encode_utf8(pattern);
    assert forall|j: int| 0 <= j < wanted.len() implies lower(bytes[at + j])
        == #[trigger] wanted[j] by {
        assert(bytes[at + j] == middle[j]);
        assert(same_but_for_case(shown[j], pattern[j]));
        assert(is_lower(pattern[j]));
        assert(shown[j] as u8 == middle[j]);
        assert(pattern[j] as u8 == wanted[j]);
    }
    assert(stands_at(bytes, wanted, at));
}

/// A pattern that occurs in a text of ASCII letters stands in it somewhere, letter by letter, but for
/// the case.
pub proof fn what_occurs_stands_somewhere(text: Seq<char>, pattern: Seq<char>)
    requires
        vstd::utf8::is_ascii_chars(text),
        all_lower(pattern),
        occurs_in(text, pattern),
    ensures
        exists|at: int|
            0 <= at && at + pattern.len() <= text.len() && stands_at_letters(text, pattern, at),
{
    let bytes = vstd::utf8::encode_utf8(text);
    let wanted = vstd::utf8::encode_utf8(pattern);
    let at = choose|at: int| #[trigger] stands_at(bytes, wanted, at);
    lemma_lower_is_ascii(pattern);
    vstd::utf8::is_ascii_chars_encode_utf8(text);
    vstd::utf8::is_ascii_chars_encode_utf8(pattern);
    assert forall|j: int| 0 <= j < pattern.len() implies same_but_for_case(
        text[at + j],
        #[trigger] pattern[j],
    ) by {
        assert(lower(bytes[at + j]) == wanted[j]);
        assert(is_lower(pattern[j]));
        assert(text[at + j] as u8 == bytes[at + j]);
        assert(pattern[j] as u8 == wanted[j]);
    }
    assert(stands_at_letters(text, pattern, at));
}

/// Whether a pattern stands in a text at a place, letter by letter, but for the case.
pub open spec fn stands_at_letters(text: Seq<char>, pattern: Seq<char>, at: int) -> bool {
    forall|j: int|
        0 <= j < pattern.len() ==> same_but_for_case(text[at + j], #[trigger] pattern[j])
}

/// Every known architecture is of one of two kinds: it keeps keys and values by heads, or a latent with a
/// key of its own; and its numbers are those of that kind alone.
pub proof fn every_architecture_is_of_one_kind(i: int)
    requires
        0 <= i < known_specs().len(),
    ensures
        ({
            let spec = known_specs()[i];
            &&& spec.num_layers > 0
            &&& spec.attention == AttentionKind::Standard ==> spec.num_kv_heads > 0 && (spec.head_dim
                == 128 || spec.head_dim == 256) && spec.kv_lora_rank == 0 && spec.qk_rope_head_dim
                == 0
            &&& spec.attention == AttentionKind::Mla ==> spec.num_kv_heads == 0 && spec.head_dim == 0
                && spec.kv_lora_rank == 512 && spec.qk_rope_head_dim == 64 && spec.sliding_window
                == 0
            &&& spec.sliding_window == 0 || spec.sliding_window == 4096
            &&& spec.dtype == KvDtype::Fp16 || spec.dtype == KvDtype::Bf16
        }),
{
}

} // verus!
