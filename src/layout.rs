//! Rearranging an interleaved three-channel raster into channel-major
//! order, the layout that the inference backend reads.

use vstd::prelude::*;

verus! {

/// Channels per pixel.
pub const CHANNELS: usize = 3;

/// `r` holds, for each channel `c` and pixel `p` of the `n` pixels, the
/// value `hwc[3p + c]` at position `c * n + p`.
pub open spec fn is_channel_major(hwc: Seq<u8>, n: int, r: Seq<u8>) -> bool {
    &&& r.len() == 3 * n
    &&& forall|c: int, p: int| 0 <= c < 3 && 0 <= p < n ==> #[trigger] r[c * n + p] == hwc[3 * p + c]
}

/// Position `q` of plane `c2` lies before plane `c`, and pixel `q`'s
/// channel `c2` inside a raster of `n` pixels.
proof fn lemma_plane_index(c2: int, q: int, c: int, n: int)
    requires
        0 <= c2 < c,
        0 <= q < n,
    ensures
        0 <= c2 * n + q < c * n,
{
    assert(c2 * n + q < c * n) by (nonlinear_arith)
        requires
            0 <= c2 < c,
            0 <= q < n,
    ;
    assert(0 <= c2 * n) by (nonlinear_arith)
        requires
            0 <= c2,
            0 <= n,
    ;
}

/// The planes of an interleaved raster of `pixels` pixels, one channel
/// after another.
pub fn channel_major(hwc: &Vec<u8>, pixels: usize) -> (r: Vec<u8>)
    requires
        hwc@.len() == 3 * pixels,
    ensures
        is_channel_major(hwc@, pixels as int, r@),
{
    let n = pixels;
    let len = hwc.len();
    let mut out: Vec<u8> = Vec::new();
    let mut c: usize = 0;
    while c < CHANNELS
        invariant
            hwc@.len() == 3 * n,
            len == hwc@.len(),
            c <= 3,
            out@.len() == c * n,
            forall|c2: int, p: int| 0 <= c2 < c && 0 <= p < n ==> #[trigger] out@[c2 * n + p] == hwc@[3 * p + c2],
        decreases 3 - c,
    {
        let mut p: usize = 0;
        while p < n
            invariant
                hwc@.len() == 3 * n,
                len == hwc@.len(),
                c < 3,
                p <= n,
                out@.len() == c * n + p,
                forall|c2: int, q: int| 0 <= c2 < c && 0 <= q < n ==> #[trigger] out@[c2 * n + q] == hwc@[3 * q + c2],
                forall|q: int| 0 <= q < p ==> #[trigger] out@[c * n + q] == hwc@[3 * q + c],
            decreases n - p,
        {
            proof {
                lemma_plane_index(c as int, p as int, 3, n as int);
                assert(3 * p + c < 3 * n) by (nonlinear_arith)
                    requires
                        p < n,
                        c < 3,
                ;
            }
            let ghost before = out@;
            out.push(hwc[3 * p + c]);
            assert forall|c2: int, q: int| 0 <= c2 < c && 0 <= q < n implies #[trigger] out@[c2 * n + q]
                == hwc@[3 * q + c2] by {
                lemma_plane_index(c2, q, c as int, n as int);
                assert(out@[c2 * n + q] == before[c2 * n + q]);
            }
            assert forall|q: int| 0 <= q < p + 1 implies #[trigger] out@[c * n + q] == hwc@[3 * q + c] by {
                if q < p {
                    assert(out@[c * n + q] == before[c * n + q]);
                }
            }
            p = p + 1;
        }
        assert forall|c2: int, q: int| 0 <= c2 < c + 1 && 0 <= q < n implies #[trigger] out@[c2 * n + q]
            == hwc@[3 * q + c2] by {
            if c2 == c {
            }
        }
        assert((c + 1) * n == c * n + n) by (nonlinear_arith);
        c = c + 1;
    }
    out
}

} // verus!
