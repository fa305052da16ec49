//! The stencil transform pair: `stencilize` spreads each color byte across
//! one output byte per layer, and `destencilize` reconstructs the bytes by
//! a saturating sum over the layers.

use crate::partition::{in_layer, layer_of, lemma_partition_coverage};
use crate::partition::byte_in_layer;
use crate::raster::Image;
use vstd::arithmetic::div_mod::{lemma_fundamental_div_mod_converse, lemma_small_mod};
use vstd::prelude::*;

verus! {

/// The byte emitted for color byte `v` at layer `l`: the byte itself where it
/// falls in the layer's sub-range, zero elsewhere.
pub open spec fn stencil_byte(layers: int, v: u8, l: int) -> u8 {
    if in_layer(layers, l, v as int) {
        v
    } else {
        0
    }
}

/// The stencil encoding of a flat byte sequence: for each input byte, in
/// order, one output byte per layer.
pub open spec fn stencilized(bytes: Seq<u8>, layers: int) -> Seq<u8> {
    Seq::new(
        (bytes.len() * layers) as nat,
        |i: int| stencil_byte(layers, bytes[i / layers], i % layers),
    )
}

/// Encode an image's bytes into the stencil layout, appending to `buffer`:
/// for each pixel byte in row-major R-G-B order, one byte per layer — the
/// byte itself at the layer whose sub-range contains it, zero at the others.
pub fn stencilize(img: &Image, buffer: &mut Vec<u8>, num_layers: u32)
    requires
        1 <= num_layers,
    ensures
        final(buffer)@ == old(buffer)@ + stencilized(img@, num_layers as int),
        final(buffer)@.len() == old(buffer)@.len() + img@.len() * num_layers,
{
    let ghost orig = buffer@;
    let ghost layers = num_layers as int;
    let ghost enc = stencilized(img@, layers);
    let bytes = img.bytes();
    let n = bytes.len();
    proof {
        assert(enc.len() == n * layers);
    }
    let mut idx: usize = 0;
    while idx < n
        invariant
            idx <= n,
            n == img@.len(),
            bytes@ == img@,
            1 <= num_layers,
            layers == num_layers as int,
            enc == stencilized(img@, layers),
            enc.len() == n * layers,
            buffer@ == orig + enc.take(idx * layers),
        decreases n - idx,
    {
        let v = bytes[idx];
        let mut layer: u32 = 0;
        while layer < num_layers
            invariant
                layer <= num_layers,
                idx < n,
                n == img@.len(),
                bytes@ == img@,
                v == img@[idx as int],
                1 <= num_layers,
                layers == num_layers as int,
                enc == stencilized(img@, layers),
                enc.len() == n * layers,
                buffer@ == orig + enc.take(idx * layers + layer),
            decreases num_layers - layer,
        {
            let ghost pos = idx * layers + layer;
            proof {
                assert(pos < n * layers) by (nonlinear_arith)
                    requires
                        pos == idx * layers + layer,
                        0 <= idx < n,
                        0 <= layer < layers,
                ;
                lemma_fundamental_div_mod_converse(pos, layers, idx as int, layer as int);
                assert(enc[pos] == stencil_byte(layers, v, layer as int));
            }
            if byte_in_layer(num_layers, layer, v) {
                buffer.push(v);
            } else {
                buffer.push(0);
            }
            proof {
                assert(buffer@ =~= orig + enc.take(pos + 1));
            }
            layer = layer + 1;
        }
        idx = idx + 1;
        proof {
            assert((idx - 1) * layers + layers == idx * layers) by (nonlinear_arith);
        }
    }
    proof {
        assert(enc.take(n * layers) =~= enc);
    }
}

/// Saturating byte addition, clamped at 255.
pub open spec fn sat_add(a: int, b: int) -> int {
    if a + b > 255 {
        255
    } else {
        a + b
    }
}

/// The byte that layer `l` contributes to output position `index`: the input
/// byte at (index * L + l) mod input length. An empty input contributes zero.
pub open spec fn layer_contribution(input: Seq<u8>, layers: int, index: int, l: int) -> int {
    if input.len() == 0 {
        0
    } else {
        input[(index * layers + l) % (input.len() as int)] as int
    }
}

/// The saturating sum of the contributions of layers 0..n to output position
/// `index`.
pub open spec fn layer_sum(input: Seq<u8>, layers: int, index: int, n: nat) -> int
    decreases n,
{
    if n == 0 {
        0
    } else {
        sat_add(
            layer_sum(input, layers, index, (n - 1) as nat),
            layer_contribution(input, layers, index, n - 1),
        )
    }
}

/// The reconstruction of `out_len` bytes from a stencil buffer: each position
/// is the saturating sum of all `layers` layers' contributions to it.
pub open spec fn destencilized(input: Seq<u8>, layers: int, out_len: nat) -> Seq<u8> {
    Seq::new(out_len, |i: int| layer_sum(input, layers, i, layers as nat) as u8)
}

/// Reconstruct image bytes from a stencil buffer: every position of `imgbuf`
/// is rewritten as the saturating sum of its layers' contributions, read at
/// index (position * L + layer) mod input length. The modulus is the full
/// input length, so a buffer of exactly the encoded length reconstructs
/// without wrap-around; an input of mismatched length still yields an output
/// of the same length as before, deterministically.
pub fn destencilize(in_buffer: &Vec<u8>, imgbuf: &mut Vec<u8>, num_layers: u32)
    requires
        1 <= num_layers,
        old(imgbuf)@.len() * num_layers <= usize::MAX,
    ensures
        final(imgbuf)@ == destencilized(in_buffer@, num_layers as int, old(imgbuf)@.len()),
        final(imgbuf)@.len() == old(imgbuf)@.len(),
{
    let ghost layers = num_layers as int;
    let out_len = imgbuf.len();
    let mut out: Vec<u8> = Vec::new();
    let mut index: usize = 0;
    while index < out_len
        invariant
            index <= out_len,
            out@.len() == index,
            1 <= num_layers,
            layers == num_layers as int,
            out_len * layers <= usize::MAX,
            forall|i: int|
                0 <= i < index ==> out@[i] == layer_sum(in_buffer@, layers, i, layers as nat) as u8,
        decreases out_len - index,
    {
        let mut acc: u8 = 0;
        let mut layer: u32 = 0;
        while layer < num_layers
            invariant
                layer <= num_layers,
                index < out_len,
                1 <= num_layers,
                layers == num_layers as int,
                out_len * layers <= usize::MAX,
                acc as int == layer_sum(in_buffer@, layers, index as int, layer as nat),
            decreases num_layers - layer,
        {
            proof {
                assert(index * layers + layer < out_len * layers) by (nonlinear_arith)
                    requires
                        0 <= (index as int) < out_len,
                        0 <= (layer as int) < layers,
                ;
            }
            if in_buffer.len() > 0 {
                let k: usize = (index * (num_layers as usize) + (layer as usize)) % in_buffer.len();
                acc = acc.saturating_add(in_buffer[k]);
            }
            layer = layer + 1;
        }
        out.push(acc);
        index = index + 1;
    }
    proof {
        assert(out@ =~= destencilized(in_buffer@, layers, out_len as nat));
    }
    *imgbuf = out;
}

/// The layer sums over an encoded buffer select exactly the one layer that
/// carries the original byte: summing the first `n` layers yields the byte
/// once its layer is among them, and zero before that.
proof fn lemma_round_trip_sum(bytes: Seq<u8>, layers: int, index: int, n: nat)
    requires
        1 <= layers,
        0 <= index < bytes.len(),
        n <= layers,
    ensures
        layer_sum(stencilized(bytes, layers), layers, index, n) == if layer_of(
            layers,
            bytes[index] as int,
        ) < n {
            bytes[index] as int
        } else {
            0int
        },
    decreases n,
{
    let enc = stencilized(bytes, layers);
    let v = bytes[index];
    lemma_partition_coverage(layers, v as int);
    let a = layer_of(layers, v as int);
    if n > 0 {
        lemma_round_trip_sum(bytes, layers, index, (n - 1) as nat);
        let l = n - 1;
        let pos = index * layers + l;
        assert(0 <= pos < bytes.len() * layers) by (nonlinear_arith)
            requires
                pos == index * layers + l,
                0 <= index < bytes.len(),
                0 <= l < layers,
        ;
        lemma_small_mod(pos as nat, (bytes.len() * layers) as nat);
        lemma_fundamental_div_mod_converse(pos, layers, index, l);
        assert(layer_contribution(enc, layers, index, l) == stencil_byte(layers, v, l));
    }
}

/// Law: decoding an encoded buffer with the same layer count reproduces the
/// original bytes exactly, byte for byte, for every layer count >= 1 — in
/// particular the single-layer encoding loses nothing.
pub proof fn lemma_round_trip(bytes: Seq<u8>, layers: int)
    requires
        1 <= layers,
    ensures
        destencilized(stencilized(bytes, layers), layers, bytes.len()) == bytes,
{
    let enc = stencilized(bytes, layers);
    let dec = destencilized(enc, layers, bytes.len());
    assert forall|i: int| 0 <= i < bytes.len() implies dec[i] == bytes[i] by {
        lemma_partition_coverage(layers, bytes[i] as int);
        lemma_round_trip_sum(bytes, layers, i, layers as nat);
    }
    assert(dec =~= bytes);
}

/// Law: the transform is deterministic — any two encodings of the same bytes
/// with the same layer count are byte-identical.
pub proof fn lemma_stencilize_deterministic(bytes: Seq<u8>, layers: int, a: Seq<u8>, b: Seq<u8>)
    requires
        a == stencilized(bytes, layers),
        b == stencilized(bytes, layers),
    ensures
        a == b,
{
}

/// Law: reconstruction is deterministic — any two reconstructions from the
/// same input, layer count and output length are byte-identical.
pub proof fn lemma_destencilize_deterministic(
    input: Seq<u8>,
    layers: int,
    out_len: nat,
    a: Seq<u8>,
    b: Seq<u8>,
)
    requires
        a == destencilized(input, layers, out_len),
        b == destencilized(input, layers, out_len),
    ensures
        a == b,
{
}

/// The layer count actually used: a requested count of zero is clamped to one
/// before the partition is ever consulted.
pub open spec fn clamped_layers(requested: int) -> int {
    if requested < 1 {
        1
    } else {
        requested
    }
}

/// Encode an image into a freshly built stencil buffer. A requested layer
/// count of zero is clamped to one. The buffer's length is exactly
/// width * height * 3 * layers.
pub fn encode_image(img: &Image, requested_layers: u32) -> (buffer: Vec<u8>)
    requires
        img.wf(),
    ensures
        buffer@ == stencilized(img@, clamped_layers(requested_layers as int)),
        buffer@.len() == img.spec_width() * img.spec_height() * 3 * clamped_layers(
            requested_layers as int,
        ),
{
    let num_layers: u32 = if requested_layers < 1 {
        1
    } else {
        requested_layers
    };
    let mut buffer: Vec<u8> = Vec::new();
    stencilize(img, &mut buffer, num_layers);
    buffer
}

/// Reconstruct a width * height * 3 byte buffer from a stencil buffer. A
/// requested layer count of zero is clamped to one. The input length is not
/// validated against the dimensions: whatever it is, the output is the
/// deterministic reconstruction of exactly width * height * 3 bytes.
pub fn decode_stencil(in_buffer: &Vec<u8>, width: u32, height: u32, requested_layers: u32) -> (out:
    Vec<u8>)
    requires
        width * height * 3 <= u32::MAX,
        width * height * 3 * clamped_layers(requested_layers as int) <= usize::MAX,
    ensures
        out@ == destencilized(
            in_buffer@,
            clamped_layers(requested_layers as int),
            (width * height * 3) as nat,
        ),
        out@.len() == width * height * 3,
{
    let num_layers: u32 = if requested_layers < 1 {
        1
    } else {
        requested_layers
    };
    let img_size_wide: u64 = (width as u64) * (height as u64) * 3;
    let img_size: usize = img_size_wide as usize;
    let mut out: Vec<u8> = Vec::new();
    while out.len() < img_size
        invariant
            out@.len() <= img_size,
        decreases img_size - out@.len(),
    {
        out.push(0);
    }
    destencilize(in_buffer, &mut out, num_layers);
    out
}

} // verus!
