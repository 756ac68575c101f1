use quotamiser::liability::{
    estimate, output_bound, structural_input_bound, with_exact_input, EstimateError,
    EstimatorPolicy, InputShape, Liability, ModelSpec,
};

const KNOWN: ModelSpec = ModelSpec {
    max_output_tokens: 128_000,
    byte_level_encoding_known: true,
};
const UNKNOWN: ModelSpec = ModelSpec {
    max_output_tokens: 128_000,
    byte_level_encoding_known: false,
};

fn policy() -> EstimatorPolicy {
    EstimatorPolicy::new(64).unwrap()
}

#[test]
fn flat_text_is_bytes_plus_framing_plus_output() {
    let shape = InputShape::FlatText {
        instructions: None,
        input: "Say OK.",
    };
    assert_eq!(
        estimate(&policy(), &KNOWN, shape, Some(16)),
        Ok(Liability::Known(7 + 64 + 16))
    );
}

#[test]
fn instructions_are_counted_as_a_second_node() {
    let without = InputShape::FlatText {
        instructions: None,
        input: "hello",
    };
    let with = InputShape::FlatText {
        instructions: Some("be brief"),
        input: "hello",
    };
    let a = structural_input_bound(&policy(), &KNOWN, without)
        .unwrap()
        .unwrap();
    let b = structural_input_bound(&policy(), &KNOWN, with)
        .unwrap()
        .unwrap();
    assert_eq!(b - a, "be brief".len() as u64 + 64);
}

#[test]
fn bytes_not_characters() {
    let shape = InputShape::FlatText {
        instructions: None,
        input: "日本語",
    };
    assert_eq!(
        structural_input_bound(&policy(), &KNOWN, shape),
        Ok(Some(9 + 64))
    );
}

#[test]
fn structure_or_an_unknown_encoding_needs_an_exact_count() {
    assert_eq!(
        estimate(&policy(), &KNOWN, InputShape::Structured, None),
        Ok(Liability::NeedsExactInput {
            output_bound: 128_000
        })
    );
    let flat = InputShape::FlatText {
        instructions: None,
        input: "hi",
    };
    assert_eq!(
        estimate(&policy(), &UNKNOWN, flat, Some(10)),
        Ok(Liability::NeedsExactInput { output_bound: 10 })
    );
}

#[test]
fn output_bound_follows_the_cap_but_never_exceeds_the_model() {
    assert_eq!(output_bound(&KNOWN, None), Ok(128_000));
    assert_eq!(output_bound(&KNOWN, Some(4_000)), Ok(4_000));
    assert_eq!(output_bound(&KNOWN, Some(1_000_000)), Ok(128_000));
    assert_eq!(
        output_bound(&KNOWN, Some(0)),
        Err(EstimateError::ZeroOutputCap)
    );
}

#[test]
fn overflow_is_an_error_not_a_wrap() {
    assert_eq!(with_exact_input(u64::MAX, 1), Err(EstimateError::Overflow));
    assert_eq!(
        EstimatorPolicy::new(0),
        Err(EstimateError::NoFramingAllowance)
    );
}

/// One token per byte plus at most the allowance of framing per node.
#[test]
fn fast_path_dominates_worst_case_byte_level_tokenization() {
    let texts = ["", "a", "be brief", "日本語", "é\u{1F600}x", "line\nline"];
    for instructions in [None, Some(""), Some("be brief"), Some("日本語")] {
        for input in texts {
            for framing_per_node in [0u64, 1, 63, 64] {
                for cap in [None, Some(1u64), Some(127_999), Some(199_999)] {
                    let shape = InputShape::FlatText { instructions, input };
                    let Liability::Known(liability) =
                        estimate(&policy(), &KNOWN, shape, cap).unwrap()
                    else {
                        panic!("a flat text request on a known encoding takes the fast path");
                    };
                    let nodes = 1 + u64::from(instructions.is_some());
                    let worst_input = instructions.map_or(0, |s| s.len() as u64)
                        + input.len() as u64
                        + framing_per_node * nodes;
                    let worst_output = cap
                        .unwrap_or(KNOWN.max_output_tokens)
                        .min(KNOWN.max_output_tokens);
                    assert!(liability >= worst_input + worst_output);
                }
            }
        }
    }
}

#[test]
fn an_estimate_that_overflows_says_so() {
    let huge = ModelSpec {
        max_output_tokens: u64::MAX,
        byte_level_encoding_known: true,
    };
    let shape = InputShape::FlatText {
        instructions: None,
        input: "x",
    };
    assert_eq!(
        estimate(&policy(), &huge, shape, None),
        Err(EstimateError::Overflow)
    );
    assert_eq!(EstimateError::Overflow.message(), "liability overflowed");
}
