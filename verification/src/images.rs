//! Icons ready for the screen. Decoding the files and turning them into
//! bitmaps happen with the Windows parts of the app.

use vstd::prelude::*;

verus! {

/// Largest edge kept in memory. The largest icon drawn is the stratagem card
/// (~140 DIP), which still leaves room for 150% DPI.
pub const MAX_EDGE_PX: u32 = 192;

/// An image ready to become a bitmap: 8-bit BGRA with premultiplied alpha,
/// the format of the render targets.
#[derive(Debug, Clone, PartialEq, Eq)]
pub struct Decoded {
    pub width: u32,
    pub height: u32,
    pub bgra: Vec<u8>,
}

impl Decoded {
    /// Bytes per row, the pitch that `CreateBitmap` asks for.
    pub fn stride(&self) -> (r: u32)
        requires
            self.width * 4 <= u32::MAX,
        ensures
            r == self.width * 4,
    {
        self.width * 4
    }
}

/// A channel weighted by alpha, rounded to the nearest: `c * a / 255`.
pub open spec fn premul(c: u8, a: u8) -> int {
    (c * a + 127) / 255
}

/// The byte at `i` once the pixels of `rgba` are turned, each in place, into
/// premultiplied BGRA: blue, green and red weighted by alpha, alpha kept.
/// Bytes after the last whole pixel stay as they are.
pub open spec fn bgra_byte(rgba: Seq<u8>, i: int) -> int {
    let p = i - i % 4;
    if p + 4 > rgba.len() {
        rgba[i] as int
    } else if i % 4 == 0 {
        premul(rgba[p + 2], rgba[p + 3])
    } else if i % 4 == 1 {
        premul(rgba[p + 1], rgba[p + 3])
    } else if i % 4 == 2 {
        premul(rgba[p], rgba[p + 3])
    } else {
        rgba[i] as int
    }
}

proof fn lemma_premul_bound(c: u8, a: u8)
    ensures
        0 <= premul(c, a) <= a,
{
    assert(0 <= c * a <= 255 * a) by (nonlinear_arith)
        requires
            0 <= c <= 255,
            0 <= a,
    ;
}

fn premultiply(c: u8, a: u8) -> (r: u8)
    ensures
        r == premul(c, a),
{
    proof {
        lemma_premul_bound(c, a);
        assert((c as u32) * (a as u32) <= 255 * 255) by (nonlinear_arith)
            requires
                c <= 255,
                a <= 255,
        ;
    }
    (((c as u32) * (a as u32) + 127) / 255) as u8
}

/// Straight RGBA to premultiplied BGRA, in one pass over the pixels: the
/// format of the render targets.
pub fn to_premultiplied_bgra(rgba: Vec<u8>) -> (bgra: Vec<u8>)
    ensures
        bgra@.len() == rgba@.len(),
        forall|i: int| 0 <= i < rgba@.len() ==> #[trigger] bgra@[i] == bgra_byte(rgba@, i),
{
    let ghost src = rgba@;
    let mut v = rgba;
    let n = v.len() / 4;
    let mut p: usize = 0;
    assert(4 * n <= src.len());
    while p < n
        invariant
            n == src.len() / 4,
            4 * n <= src.len(),
            v@.len() == src.len(),
            p <= n,
            forall|i: int| 0 <= i < 4 * p ==> #[trigger] v@[i] == bgra_byte(src, i),
            forall|i: int| 4 * p <= i < src.len() ==> #[trigger] v@[i] == src[i],
        decreases n - p,
    {
        assert(4 * p + 4 <= v.len());
        let k = 4 * p;
        let r = v[k];
        let g = v[k + 1];
        let b = v[k + 2];
        let a = v[k + 3];
        let nb = premultiply(b, a);
        let ng = premultiply(g, a);
        let nr = premultiply(r, a);
        v.set(k, nb);
        v.set(k + 1, ng);
        v.set(k + 2, nr);
        proof {
            assert forall|i: int| 0 <= i < 4 * (p + 1) implies #[trigger] v@[i] == bgra_byte(src, i) by {
                if i >= 4 * p {
                    assert(i - i % 4 == k) by (nonlinear_arith)
                        requires
                            4 * p <= i < 4 * p + 4,
                            k == 4 * p,
                    ;
                    assert(k + 4 <= src.len()) by (nonlinear_arith)
                        requires
                            p < n,
                            n == src.len() / 4,
                            k == 4 * p,
                    ;
                }
            }
        }
        p += 1;
    }
    proof {
        assert forall|i: int| 0 <= i < src.len() implies #[trigger] v@[i] == bgra_byte(src, i) by {
            if i >= 4 * n {
                assert(i - i % 4 + 4 > src.len()) by (nonlinear_arith)
                    requires
                        4 * n <= i < src.len(),
                        n == src.len() / 4,
                ;
            }
        }
    }
    v
}

/// Premultiplied means no color channel of a pixel exceeds its alpha.
pub proof fn law_no_channel_exceeds_alpha(rgba: Seq<u8>, p: int)
    requires
        0 <= p,
        4 * p + 4 <= rgba.len(),
    ensures
        bgra_byte(rgba, 4 * p) <= bgra_byte(rgba, 4 * p + 3),
        bgra_byte(rgba, 4 * p + 1) <= bgra_byte(rgba, 4 * p + 3),
        bgra_byte(rgba, 4 * p + 2) <= bgra_byte(rgba, 4 * p + 3),
        bgra_byte(rgba, 4 * p + 3) == rgba[4 * p + 3],
{
    let a = rgba[4 * p + 3];
    lemma_premul_bound(rgba[4 * p], a);
    lemma_premul_bound(rgba[4 * p + 1], a);
    lemma_premul_bound(rgba[4 * p + 2], a);
    assert((4 * p) % 4 == 0 && (4 * p + 1) % 4 == 1 && (4 * p + 2) % 4 == 2 && (4 * p + 3) % 4 == 3) by (nonlinear_arith)
        requires
            0 <= p,
    ;
}

} // verus!
