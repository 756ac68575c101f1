//! The liability of a request: the most it can consume.
//!
//! The ledger reserves exactly this number, so it must be an upper bound and
//! never an estimate. It is the sum of an input bound and an output bound.
//!
//! The input bound has a fast path for a flat text request whose model uses
//! a byte-level encoding covering all 256 byte values. Merges only ever reduce
//! the token count, so the text's tokens never exceed its UTF-8 byte length,
//! whatever the vocabulary. Request framing (role and boundary tokens) is not
//! in the text; it is covered by a per-node allowance. Everything else goes to
//! the provider's count instead. That count is exact for most request shapes
//! but not all: tools declared in an `additional_tools` input item are counted
//! once less than generation renders them, so the count to use is the sum over
//! every body that a request's input count bodies hold.
use vstd::prelude::*;
use vstd::string::*;

verus! {

#[derive(Debug, Clone, Copy, PartialEq, Eq, Structural)]
pub struct ModelSpec {
    /// Includes reasoning tokens.
    pub max_output_tokens: u64,
    /// Only when the model is known to use a byte-level encoding covering all
    /// byte values. Unpublished encodings, such as GPT-5.6's, must be `false`.
    pub byte_level_encoding_known: bool,
}

/// The request's input, reduced to what bounding needs.
#[derive(Debug, Clone, Copy, PartialEq, Eq)]
pub enum InputShape<'a> {
    /// A single text input and at most a single text instructions, with no
    /// content parts, messages, tools or attachments.
    FlatText { instructions: Option<&'a str>, input: &'a str },
    /// Anything with structure. Framing grows per part in ways the byte
    /// bound does not cover, so these always use the provider's count.
    Structured,
}

#[derive(Debug, Clone, Copy, PartialEq, Eq, Structural)]
pub struct EstimatorPolicy {
    framing_allowance_per_node: u64,
}

/// Placeholder until measured against the provider's token count. The one
/// observation so far, a single seven-byte input counted at 9 tokens, puts
/// its framing between 2 and 8 tokens.
pub const DEFAULT_FRAMING_ALLOWANCE_PER_NODE: u64 = 64;

#[derive(Debug, Clone, Copy, PartialEq, Eq, Structural)]
pub enum EstimateError {
    /// The framing allowance must be positive.
    NoFramingAllowance,
    /// An output cap of zero admits no response.
    ZeroOutputCap,
    /// The liability overflowed.
    Overflow,
}

/// What went wrong, in words.
pub open spec fn estimate_text(error: EstimateError) -> Seq<char> {
    match error {
        EstimateError::NoFramingAllowance => "the framing allowance must be positive"@,
        EstimateError::ZeroOutputCap => "an output cap of zero admits no response"@,
        EstimateError::Overflow => "liability overflowed"@,
    }
}

impl EstimateError {
    pub fn message(self) -> (text: &'static str)
        ensures
            text@ == estimate_text(self),
    {
        match self {
            EstimateError::NoFramingAllowance => "the framing allowance must be positive",
            EstimateError::ZeroOutputCap => "an output cap of zero admits no response",
            EstimateError::Overflow => "liability overflowed",
        }
    }
}

impl EstimatorPolicy {
    pub closed spec fn framing(self) -> nat {
        self.framing_allowance_per_node as nat
    }

    pub fn new(framing_allowance_per_node: u64) -> (result: Result<Self, EstimateError>)
        ensures
            match result {
                Ok(policy) => framing_allowance_per_node > 0 && policy.framing()
                    == framing_allowance_per_node,
                Err(error) => framing_allowance_per_node == 0 && error
                    == EstimateError::NoFramingAllowance,
            },
    {
        if framing_allowance_per_node == 0 {
            return Err(EstimateError::NoFramingAllowance);
        }
        Ok(Self { framing_allowance_per_node })
    }
}

impl Default for EstimatorPolicy {
    fn default() -> (policy: Self)
        ensures
            policy.framing() == DEFAULT_FRAMING_ALLOWANCE_PER_NODE,
    {
        Self { framing_allowance_per_node: DEFAULT_FRAMING_ALLOWANCE_PER_NODE }
    }
}

#[derive(Debug, Clone, Copy, PartialEq, Eq, Structural)]
pub enum Liability {
    Known(u64),
    /// Obtain the provider's input count, summed over the count bodies, then
    /// call [`with_exact_input`].
    NeedsExactInput { output_bound: u64 },
}

/// The client's cap, never above the model's maximum.
pub open spec fn capped_output(spec: ModelSpec, requested_cap: Option<u64>) -> nat {
    match requested_cap {
        Some(cap) if cap < spec.max_output_tokens => cap as nat,
        _ => spec.max_output_tokens as nat,
    }
}

/// The output bound: the client's cap when given, never above the model's
/// maximum, which applies when the client gives none.
pub fn output_bound(spec: &ModelSpec, requested_cap: Option<u64>) -> (result: Result<
    u64,
    EstimateError,
>)
    ensures
        match result {
            Ok(bound) => requested_cap != Some(0u64) && bound == capped_output(
                *spec,
                requested_cap,
            ),
            Err(error) => requested_cap == Some(0u64) && error == EstimateError::ZeroOutputCap,
        },
{
    match requested_cap {
        Some(cap) => {
            if cap == 0 {
                Err(EstimateError::ZeroOutputCap)
            } else if cap < spec.max_output_tokens {
                Ok(cap)
            } else {
                Ok(spec.max_output_tokens)
            }
        },
        None => Ok(spec.max_output_tokens),
    }
}

/// How many text nodes the provider receives for a flat request.
pub open spec fn text_nodes(instructions: Option<&str>) -> nat {
    if instructions is Some {
        2
    } else {
        1
    }
}

/// The bytes of every text node the provider receives for a flat request.
pub open spec fn text_bytes(instructions: Option<&str>, input: &str) -> nat {
    match instructions {
        Some(text) => text.spec_bytes().len() + input.spec_bytes().len(),
        None => input.spec_bytes().len(),
    }
}

/// One token per byte, and the framing allowance per node.
pub open spec fn flat_bound(
    policy: EstimatorPolicy,
    instructions: Option<&str>,
    input: &str,
) -> nat {
    text_bytes(instructions, input) + policy.framing() * text_nodes(instructions)
}

/// The structural input bound, or `None` when only an exact count will do.
pub fn structural_input_bound(
    policy: &EstimatorPolicy,
    spec: &ModelSpec,
    shape: InputShape<'_>,
) -> (result: Result<Option<u64>, EstimateError>)
    ensures
        match shape {
            InputShape::FlatText { instructions, input } if spec.byte_level_encoding_known => {
                if flat_bound(*policy, instructions, input) <= u64::MAX {
                    result == Ok::<Option<u64>, EstimateError>(
                        Some(flat_bound(*policy, instructions, input) as u64),
                    )
                } else {
                    result == Err::<Option<u64>, EstimateError>(EstimateError::Overflow)
                }
            },
            _ => result == Ok::<Option<u64>, EstimateError>(None),
        },
{
    let (instructions, input) = match shape {
        InputShape::FlatText { instructions, input } => (instructions, input),
        InputShape::Structured => return Ok(None),
    };
    if !spec.byte_level_encoding_known {
        return Ok(None);
    }
    let mut bytes: u64 = 0;
    let mut nodes: u64 = 1;
    match instructions {
        Some(text) => {
            bytes = byte_length(text);
            nodes = 2;
        },
        None => {},
    }
    let total_bytes: u64 = match bytes.checked_add(byte_length(input)) {
        None => return Err(EstimateError::Overflow),
        Some(total) => total,
    };
    assert(policy.framing_allowance_per_node * nodes == policy.framing() * text_nodes(
        instructions,
    ));
    let framing: u64 = match policy.framing_allowance_per_node.checked_mul(nodes) {
        None => return Err(EstimateError::Overflow),
        Some(framing) => framing,
    };
    match total_bytes.checked_add(framing) {
        None => Err(EstimateError::Overflow),
        Some(bound) => Ok(Some(bound)),
    }
}

/// The UTF-8 length of a text.
fn byte_length(text: &str) -> (bytes: u64)
    ensures
        bytes == text.spec_bytes().len(),
{
    text.as_bytes().len() as u64
}

/// The liability of a request, as far as it is known before sending.
pub open spec fn estimated(
    policy: EstimatorPolicy,
    spec: ModelSpec,
    shape: InputShape<'_>,
    requested_cap: Option<u64>,
) -> Result<Liability, EstimateError> {
    let output = capped_output(spec, requested_cap);
    if requested_cap == Some(0u64) {
        Err(EstimateError::ZeroOutputCap)
    } else {
        match shape {
            InputShape::FlatText { instructions, input } if spec.byte_level_encoding_known => {
                let bound = flat_bound(policy, instructions, input) + output;
                if bound <= u64::MAX {
                    Ok(Liability::Known(bound as u64))
                } else {
                    Err(EstimateError::Overflow)
                }
            },
            _ => Ok(Liability::NeedsExactInput { output_bound: output as u64 }),
        }
    }
}

pub fn estimate(
    policy: &EstimatorPolicy,
    spec: &ModelSpec,
    shape: InputShape<'_>,
    requested_cap: Option<u64>,
) -> (result: Result<Liability, EstimateError>)
    ensures
        result == estimated(*policy, *spec, shape, requested_cap),
{
    let bound: u64 = match output_bound(spec, requested_cap) {
        Err(error) => return Err(error),
        Ok(bound) => bound,
    };
    match structural_input_bound(policy, spec, shape) {
        Err(error) => Err(error),
        Ok(None) => Ok(Liability::NeedsExactInput { output_bound: bound }),
        Ok(Some(input)) => match input.checked_add(bound) {
            None => Err(EstimateError::Overflow),
            Some(total) => Ok(Liability::Known(total)),
        },
    }
}

/// A liability for an input that was counted.
pub open spec fn counted_liability(exact_input_tokens: u64, output_bound: u64) -> Result<
    u64,
    EstimateError,
> {
    if exact_input_tokens + output_bound <= u64::MAX {
        Ok((exact_input_tokens + output_bound) as u64)
    } else {
        Err(EstimateError::Overflow)
    }
}

/// Completes a liability once the provider has counted the input: the sum of
/// its counts over the count bodies, never a single count of the request.
pub fn with_exact_input(exact_input_tokens: u64, output_bound: u64) -> (result: Result<
    u64,
    EstimateError,
>)
    ensures
        result == counted_liability(exact_input_tokens, output_bound),
        result == if exact_input_tokens + output_bound <= u64::MAX {
            Ok::<u64, EstimateError>((exact_input_tokens + output_bound) as u64)
        } else {
            Err::<u64, EstimateError>(EstimateError::Overflow)
        },
{
    match exact_input_tokens.checked_add(output_bound) {
        None => Err(EstimateError::Overflow),
        Some(total) => Ok(total),
    }
}

/// Law: against the worst a byte-level tokenizer can do, one token per byte,
/// plus at most the allowance of framing per node, the fast path bound always
/// holds: whatever the request consumes within those limits and its output
/// cap, the liability covers it.
pub proof fn fast_path_dominates_worst_case_byte_level_tokenization(
    policy: EstimatorPolicy,
    spec: ModelSpec,
    instructions: Option<&str>,
    input: &str,
    requested_cap: Option<u64>,
    text_tokens: nat,
    framing_per_node: nat,
    output_tokens: nat,
)
    requires
        spec.byte_level_encoding_known,
        text_tokens <= text_bytes(instructions, input),
        framing_per_node <= policy.framing(),
        output_tokens <= capped_output(spec, requested_cap),
    ensures
        match estimated(
            policy,
            spec,
            InputShape::FlatText { instructions, input },
            requested_cap,
        ) {
            Ok(Liability::Known(liability)) => text_tokens + framing_per_node * text_nodes(
                instructions,
            ) + output_tokens <= liability,
            Ok(_) => false,
            Err(_) => true,
        },
{
    assert(framing_per_node * text_nodes(instructions) <= policy.framing() * text_nodes(
        instructions,
    )) by (nonlinear_arith)
        requires
            framing_per_node <= policy.framing(),
    ;
}

/// Law: an output bound never exceeds the model's maximum or the client's cap.
pub proof fn the_output_bound_respects_both_limits(spec: ModelSpec, requested_cap: Option<u64>)
    ensures
        capped_output(spec, requested_cap) <= spec.max_output_tokens,
        requested_cap matches Some(cap) ==> capped_output(spec, requested_cap) <= cap,
{
}

/// Law: the output bound is the smaller of the model's maximum and the client's
/// cap, and the model's maximum where the client gives none.
pub proof fn the_output_bound_is_the_smaller_limit(spec: ModelSpec, requested_cap: Option<u64>)
    ensures
        capped_output(spec, requested_cap) == spec.max_output_tokens || requested_cap == Some(
            capped_output(spec, requested_cap) as u64,
        ),
        requested_cap is None || requested_cap->0 >= spec.max_output_tokens ==> capped_output(
            spec,
            requested_cap,
        ) == spec.max_output_tokens,
        requested_cap matches Some(cap) ==> (cap <= spec.max_output_tokens ==> capped_output(
            spec,
            requested_cap,
        ) == cap),
{
}

/// Law: a flat request is bounded by a token for each byte of its texts, the
/// allowance for each text, and its output, and one more byte, text or token of
/// output makes the bound larger by what it adds. Anything else, and anything
/// to a model whose encoding is not known, is bounded only by a count.
pub proof fn a_flat_bound_is_what_its_parts_add_up_to(
    policy: EstimatorPolicy,
    spec: ModelSpec,
    instructions: Option<&str>,
    input: &str,
    requested_cap: Option<u64>,
)
    requires
        requested_cap != Some(0u64),
    ensures
        ({
            let bytes = input.spec_bytes().len() + (match instructions {
                Some(text) => text.spec_bytes().len() + policy.framing(),
                None => 0,
            });
            let bound = bytes + policy.framing() + capped_output(spec, requested_cap);
            let shape = InputShape::FlatText { instructions, input };
            match estimated(policy, spec, shape, requested_cap) {
                Ok(Liability::Known(liability)) => spec.byte_level_encoding_known && liability
                    == bound,
                Ok(_) => !spec.byte_level_encoding_known,
                Err(error) => spec.byte_level_encoding_known && bound > u64::MAX && error
                    == EstimateError::Overflow,
            }
        }),
{
    assert(policy.framing() * 2 == policy.framing() + policy.framing());
    assert(policy.framing() * 1 == policy.framing());
}

/// Law: with the usual allowance a flat input costs a token for each of its
/// bytes, and sixty-four.
pub proof fn a_text_is_allowed_sixty_four_tokens(
    policy: EstimatorPolicy,
    spec: ModelSpec,
    input: &str,
    cap: u64,
)
    requires
        policy.framing() == DEFAULT_FRAMING_ALLOWANCE_PER_NODE,
        spec.byte_level_encoding_known,
        0 < cap <= spec.max_output_tokens,
        input.spec_bytes().len() + 64 + cap <= u64::MAX,
    ensures
        estimated(
            policy,
            spec,
            InputShape::FlatText { instructions: None, input },
            Some(cap),
        ) == Ok::<Liability, EstimateError>(
            Liability::Known((input.spec_bytes().len() + 64 + cap) as u64),
        ),
{
    a_flat_bound_is_what_its_parts_add_up_to(policy, spec, None, input, Some(cap));
}

/// Law: a counted liability covers the whole of its input and its output, no
/// more and no less, and where no number can it is an overflow.
pub proof fn a_counted_liability_covers_input_and_output(input: u64, output: u64)
    ensures
        match counted_liability(input, output) {
            Ok(liability) => liability - output == input,
            Err(error) => error == EstimateError::Overflow && output > u64::MAX - input,
        },
{
}

} // verus!
