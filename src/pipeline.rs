use vstd::prelude::*;

use crate::armor::{decode_payload, dearmored};
use crate::error::{result_view, PeelError};
use crate::layer1;
use crate::layer2;
use crate::layer3;
use crate::layer4;
use crate::layer5;
use vstd::slice::slice_to_vec;

verus! {

/// The number of layers.
pub const LAYER_COUNT: usize = 5;

/// What layer `stage` (1 to 5) decodes the dearmored bytes `b` to.
pub open spec fn layer_output(stage: int, b: Seq<u8>) -> Result<Seq<u8>, PeelError> {
    if stage == 1 {
        if b.len() == 0 {
            Err(PeelError::EmptyInput)
        } else {
            Ok(layer1::twist(b))
        }
    } else if stage == 2 {
        Ok(layer2::unpacked(b))
    } else if stage == 3 {
        if layer3::key_recoverable(b) {
            Ok(layer3::decrypted(b))
        } else {
            Err(PeelError::NoKeyCandidate)
        }
    } else if stage == 4 {
        layer4::reassembled(b)
    } else {
        layer5::decrypted_payload(b)
    }
}

/// What stage `stage` makes of its input: strip the armor, then apply the layer.
pub open spec fn stage_output(stage: int, input: Seq<u8>) -> Result<Seq<u8>, PeelError> {
    match dearmored(input) {
        Ok(b) => layer_output(stage, b),
        Err(e) => Err(e),
    }
}

/// The stages `stage` to 5 applied in turn to `input`.
pub open spec fn peeled_from(stage: int, input: Seq<u8>) -> Result<Seq<u8>, PeelError>
    decreases 6 - stage,
{
    if stage > 5 || stage < 1 {
        Ok(input)
    } else {
        match stage_output(stage, input) {
            Ok(next) => peeled_from(stage + 1, next),
            Err(e) => Err(e),
        }
    }
}

/// Applies layer `stage` (1 to 5) to bytes that are already dearmored.
pub fn apply_layer(stage: usize, b: Vec<u8>) -> (r: Result<Vec<u8>, PeelError>)
    requires
        1 <= stage <= LAYER_COUNT,
    ensures
        result_view(r) == layer_output(stage as int, b@),
{
    if stage == 1 {
        layer1::solve(b)
    } else if stage == 2 {
        Ok(layer2::solve(b))
    } else if stage == 3 {
        layer3::solve(b)
    } else if stage == 4 {
        layer4::solve(b)
    } else {
        layer5::solve(b)
    }
}

/// Runs stage `stage` (1 to 5): strips the armor off `input`, then applies the layer.
pub fn run_stage(stage: usize, input: &[u8]) -> (r: Result<Vec<u8>, PeelError>)
    requires
        1 <= stage <= LAYER_COUNT,
    ensures
        result_view(r) == stage_output(stage as int, input@),
{
    match decode_payload(input) {
        Ok(b) => apply_layer(stage, b),
        Err(e) => Err(e),
    }
}

/// Runs the five stages in order on the armored text `input`.
pub fn peel(input: &[u8]) -> (r: Result<Vec<u8>, PeelError>)
    ensures
        result_view(r) == peeled_from(1, input@),
{
    let mut current: Vec<u8> = slice_to_vec(input);
    let mut stage: usize = 1;
    assert(current@ =~= input@);
    while stage <= LAYER_COUNT
        invariant
            1 <= stage <= LAYER_COUNT + 1,
            peeled_from(stage as int, current@) == peeled_from(1, input@),
        decreases LAYER_COUNT + 1 - stage,
    {
        match run_stage(stage, current.as_slice()) {
            Ok(next) => {
                current = next;
            },
            Err(e) => {
                return Err(e);
            },
        }
        stage = stage + 1;
    }
    Ok(current)
}

/// Running the pipeline again on the same input gives the same bytes, or the same error.
pub proof fn lemma_peel_repeatable(a: Seq<u8>, b: Seq<u8>)
    requires
        a == b,
    ensures
        peeled_from(1, a) == peeled_from(1, b),
{
}

/// Running one stage again on the same input gives the same bytes, or the same error.
pub proof fn lemma_stage_repeatable(stage: int, a: Seq<u8>, b: Seq<u8>)
    requires
        a == b,
    ensures
        stage_output(stage, a) == stage_output(stage, b),
{
}

} // verus!
