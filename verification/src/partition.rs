//! The partition of the byte domain [0, 255] into per-layer sub-ranges.
//!
//! For a layer count L >= 1, layer `l` owns the closed range
//! [l * (256 / L), l * (256 / L) + 256 / L - 1], except that the last layer
//! additionally absorbs the remainder 256 % L. These ranges cover [0, 255]
//! with no gaps and no overlaps.

use vstd::arithmetic::div_mod::lemma_fundamental_div_mod;
use vstd::arithmetic::mul::lemma_mul_inequality;
use vstd::prelude::*;

verus! {

/// Width of every layer's sub-range except the remainder part: 256 / L.
pub open spec fn layer_range(layers: int) -> int {
    256int / layers
}

/// What is left over when 256 is split into L equal ranges: 256 % L.
pub open spec fn layer_remainder(layers: int) -> int {
    256int % layers
}

/// Lowest byte value of layer `l`.
pub open spec fn layer_lo(layers: int, l: int) -> int {
    l * layer_range(layers)
}

/// Highest byte value of layer `l`; the last layer absorbs the remainder.
pub open spec fn layer_hi(layers: int, l: int) -> int {
    layer_lo(layers, l) + layer_range(layers) - 1 + if l == layers - 1 {
        layer_remainder(layers)
    } else {
        0
    }
}

/// Whether byte value `v` belongs to layer `l` of the partition into `layers`
/// layers.
pub open spec fn in_layer(layers: int, l: int, v: int) -> bool {
    layer_lo(layers, l) <= v <= layer_hi(layers, l)
}

/// The layer that byte value `v` belongs to.
pub open spec fn layer_of(layers: int, v: int) -> int {
    if layer_range(layers) == 0 {
        layers - 1
    } else if v / layer_range(layers) < layers - 1 {
        v / layer_range(layers)
    } else {
        layers - 1
    }
}

/// `layer_of` picks a layer in range, and the byte value lies in its
/// sub-range.
pub proof fn lemma_layer_of_in_layer(layers: int, v: int)
    requires
        1 <= layers,
        0 <= v <= 255,
    ensures
        0 <= layer_of(layers, v) < layers,
        in_layer(layers, layer_of(layers, v), v),
{
    let range = layer_range(layers);
    let rem = layer_remainder(layers);
    lemma_fundamental_div_mod(256, layers);
    assert(256 == layers * range + rem);
    if range == 0 {
        let l = layers - 1;
        assert(layer_lo(layers, l) == 0) by (nonlinear_arith)
            requires
                layer_lo(layers, l) == l * 0,
        ;
        assert(layers * range == 0) by (nonlinear_arith)
            requires
                range == 0,
        ;
        assert(layer_hi(layers, l) == 255);
    } else {
        let q = v / range;
        lemma_fundamental_div_mod(v, range);
        assert(v == range * q + v % range);
        if q < layers - 1 {
            assert(layer_lo(layers, q) <= v);
            assert(v <= layer_hi(layers, q));
        } else {
            let l = layers - 1;
            lemma_mul_inequality(l, q, range);
            assert(l * range <= q * range);
            assert(q * range <= v) by (nonlinear_arith)
                requires
                    v == range * q + v % range,
                    0 <= v % range,
            ;
            assert(layer_lo(layers, l) <= v);
            assert(l * range + range == layers * range) by (nonlinear_arith)
                requires
                    l == layers - 1,
            ;
            assert(layer_hi(layers, l) == 255);
        }
    }
}

/// No byte value lies in two distinct layers' sub-ranges.
pub proof fn lemma_in_layer_unique(layers: int, l1: int, l2: int, v: int)
    requires
        1 <= layers,
        0 <= l1 < layers,
        0 <= l2 < layers,
        in_layer(layers, l1, v),
        in_layer(layers, l2, v),
    ensures
        l1 == l2,
{
    if l1 != l2 {
        let (a, b) = if l1 < l2 {
            (l1, l2)
        } else {
            (l2, l1)
        };
        let range = layer_range(layers);
        if range == 0 {
            assert(a < layers - 1);
            assert(layer_lo(layers, a) == 0 && layer_hi(layers, a) == -1) by (nonlinear_arith)
                requires
                    range == 0,
                    a != layers - 1,
                    layer_lo(layers, a) == a * range,
                    layer_hi(layers, a) == layer_lo(layers, a) + range - 1,
            ;
        } else {
            assert(a != layers - 1);
            assert(v <= a * range + range - 1);
            lemma_mul_inequality(a + 1, b, range);
            assert(a * range + range == (a + 1) * range) by (nonlinear_arith);
            assert(b * range <= v);
        }
    }
}

/// Law: for every layer count L >= 1 and every byte value, exactly one layer's
/// sub-range contains the value — the sub-ranges partition [0, 255] with no
/// gaps and no overlaps.
pub proof fn lemma_partition_coverage(layers: int, v: int)
    requires
        1 <= layers,
        0 <= v <= 255,
    ensures
        0 <= layer_of(layers, v) < layers,
        in_layer(layers, layer_of(layers, v), v),
        forall|l: int| 0 <= l < layers && #[trigger] in_layer(layers, l, v) ==> l == layer_of(layers, v),
{
    lemma_layer_of_in_layer(layers, v);
    assert forall|l: int| 0 <= l < layers && #[trigger] in_layer(layers, l, v) implies l == layer_of(
        layers,
        v,
    ) by {
        lemma_in_layer_unique(layers, l, layer_of(layers, v), v);
    }
}

/// Does byte `value` fall in layer `layer`'s sub-range?
pub fn byte_in_layer(num_layers: u32, layer: u32, value: u8) -> (r: bool)
    requires
        1 <= num_layers,
        layer < num_layers,
    ensures
        r == in_layer(num_layers as int, layer as int, value as int),
{
    let range: u32 = 256 / num_layers;
    let remainder: u32 = 256 % num_layers;
    proof {
        assert((layer as int) * (range as int) <= 0xffff_ffff * 256) by (nonlinear_arith)
            requires
                0 <= (layer as int) <= 0xffff_ffff,
                0 <= (range as int) <= 256,
        ;
    }
    let lo: u64 = (layer as u64) * (range as u64);
    let extra: u64 = if layer == num_layers - 1 {
        remainder as u64
    } else {
        0
    };
    let hi_plus_one: u64 = lo + (range as u64) + extra;
    (value as u64) >= lo && (value as u64) < hi_plus_one
}

/// The layer that byte `value` falls in, for `num_layers` layers.
pub fn layer_of_byte(num_layers: u32, value: u8) -> (l: u32)
    requires
        1 <= num_layers,
    ensures
        l as int == layer_of(num_layers as int, value as int),
        l < num_layers,
        in_layer(num_layers as int, l as int, value as int),
{
    proof {
        lemma_layer_of_in_layer(num_layers as int, value as int);
    }
    let range: u32 = 256 / num_layers;
    if range == 0 {
        num_layers - 1
    } else {
        let q: u32 = (value as u32) / range;
        if q < num_layers - 1 {
            q
        } else {
            num_layers - 1
        }
    }
}

} // verus!
