//! Load-time quantization of the transformer's projections.
use crate::request::Quant;
use vstd::prelude::*;

verus! {

/// The weights of one quantization block.
pub const BLOCK: usize = 32;

/// The block format of a quantized weight.
#[derive(Clone, Copy, Debug, PartialEq, Eq, Structural)]
pub enum GgmlDType {
    Q4_0,
    Q8_0,
}

/// The block format of a quantization.
pub fn ggml_dtype(quant: Quant) -> (r: GgmlDType)
    ensures
        r == match quant {
            Quant::Q4 => GgmlDType::Q4_0,
            Quant::Q8 => GgmlDType::Q8_0,
        },
{
    match quant {
        Quant::Q4 => GgmlDType::Q4_0,
        Quant::Q8 => GgmlDType::Q8_0,
    }
}

/// The bytes of a block of 32 weights, its scale among them.
pub open spec fn block_bytes(quant: Quant) -> int {
    match quant {
        Quant::Q4 => 18,
        Quant::Q8 => 34,
    }
}

/// The bytes of 32 parameters: a 4-bit block is 16 bytes of weights and a 2-byte scale, an 8-bit
/// block 32 and 2. One parameter takes a 32nd of it.
pub fn bytes_per_param(quant: Quant) -> (r: u64)
    ensures
        r == block_bytes(quant),
{
    match quant {
        Quant::Q4 => 18,
        Quant::Q8 => 34,
    }
}

/// How a projection's weight is held.
#[derive(Clone, Copy, Debug, PartialEq, Eq, Structural)]
pub enum Weight {
    Dense,
    Blocks(Quant),
}

/// A linear projection, dense or quantized; its bias stays dense.
#[derive(Clone, Copy, Debug, PartialEq, Eq, Structural)]
pub struct QLinear {
    pub in_dim: usize,
    pub out_dim: usize,
    pub bias: bool,
    pub weight: Weight,
}

/// A weight whose rows are no whole number of blocks.
#[derive(Clone, Copy, Debug, PartialEq, Eq, Structural)]
pub struct PartialBlock {
    pub in_dim: usize,
}

impl QLinear {
    /// The dense projection of these dimensions.
    pub open spec fn dense(in_dim: usize, out_dim: usize, bias: bool) -> Self {
        QLinear { in_dim, out_dim, bias, weight: Weight::Dense }
    }

    /// The parameters of the projection.
    pub open spec fn params(self) -> int {
        self.in_dim * self.out_dim + if self.bias {
            self.out_dim as int
        } else {
            0
        }
    }

    /// Quantizing the projection works: it is quantized already, or its rows are whole blocks.
    pub open spec fn blocks_fit(self) -> bool {
        self.weight != Weight::Dense || self.in_dim as int % BLOCK as int == 0
    }

    /// The projection after quantizing it, which leaves a quantized one alone.
    pub open spec fn quantized(self, quant: Quant) -> Self {
        if self.weight == Weight::Dense {
            QLinear { weight: Weight::Blocks(quant), ..self }
        } else {
            self
        }
    }

    /// A dense projection with a bias.
    pub fn linear(in_dim: usize, out_dim: usize) -> (r: Self)
        ensures
            r == QLinear::dense(in_dim, out_dim, true),
    {
        QLinear { in_dim, out_dim, bias: true, weight: Weight::Dense }
    }

    /// A dense projection without a bias.
    pub fn linear_no_bias(in_dim: usize, out_dim: usize) -> (r: Self)
        ensures
            r == QLinear::dense(in_dim, out_dim, false),
    {
        QLinear { in_dim, out_dim, bias: false, weight: Weight::Dense }
    }

    /// Folds a dense projection into blocks; a quantized one is left as it is.
    pub fn quantize(&mut self, quant: Quant) -> (r: Result<(), PartialBlock>)
        ensures
            match r {
                Ok(_) => old(self).blocks_fit() && *final(self) == old(self).quantized(quant),
                Err(e) => !old(self).blocks_fit() && *final(self) == *old(self) && e
                    == (PartialBlock { in_dim: old(self).in_dim }),
            },
    {
        match self.weight {
            Weight::Dense => {
                if self.in_dim % BLOCK != 0 {
                    return Err(PartialBlock { in_dim: self.in_dim });
                }
                self.weight = Weight::Blocks(quant);
                Ok(())
            },
            Weight::Blocks(_) => Ok(()),
        }
    }
}

/// Quantizing twice is quantizing once, whatever the second level.
pub proof fn law_quantize_is_idempotent(l: QLinear, first: Quant, second: Quant)
    ensures
        l.quantized(first).quantized(second) == l.quantized(first),
        l.quantized(first).blocks_fit(),
        l.quantized(first).params() == l.params(),
{
}

/// A 4-bit weight is smaller than an 8-bit one, and both are smaller than the two bytes of a dense
/// parameter.
pub proof fn law_block_bytes_are_ordered()
    ensures
        block_bytes(Quant::Q4) < block_bytes(Quant::Q8) < 2 * BLOCK,
{
}

/// A block holds the bits of its 32 weights, 4 or 8 each as the level says, and a 16-bit scale.
pub proof fn law_a_block_is_its_bits_and_a_scale(quant: Quant, bits: int)
    requires
        bits == 4 <==> quant == Quant::Q4,
        bits == 8 <==> quant == Quant::Q8,
    ensures
        8 * block_bytes(quant) == bits * BLOCK + 16,
{
}

/// Quantizing a dense projection folds its weight at the level asked for, and keeps its widths and its
/// bias; one that is quantized already keeps its level.
pub proof fn law_quantize_sets_the_level(l: QLinear, quant: Quant)
    ensures
        l.weight == Weight::Dense ==> l.quantized(quant).weight == Weight::Blocks(quant),
        l.weight != Weight::Dense ==> l.quantized(quant).weight == l.weight,
        l.quantized(quant).in_dim == l.in_dim && l.quantized(quant).out_dim == l.out_dim,
        l.quantized(quant).bias == l.bias,
{
}

} // verus!
