//! Pixel byte-order conversion for icon bitmaps.
//!
//! Icon bitmaps arrive from the host as four bytes per pixel in B,G,R,A
//! order; the renderer wants R,G,B,A.  The conversion swaps the first and
//! third byte of every complete group of four and copies any trailing bytes
//! unchanged.

use vstd::prelude::*;

verus! {

/// `b` with every complete four-byte group reordered from B,G,R,A to
/// R,G,B,A; trailing bytes (of malformed image data) are kept as they are.
pub open spec fn rgba_of(b: Seq<u8>) -> Seq<u8>
    decreases b.len(),
{
    if b.len() < 4 {
        b
    } else {
        seq![b[2], b[1], b[0], b[3]] + rgba_of(b.skip(4))
    }
}

/// Reorders a B,G,R,A pixel buffer into R,G,B,A.
pub fn bgra_to_rgba(bgra: Vec<u8>) -> (r: Vec<u8>)
    ensures
        r@ == rgba_of(bgra@),
{
    let n = bgra.len();
    let mut out: Vec<u8> = Vec::new();
    let mut i: usize = 0;
    proof {
        assert(bgra@.skip(0) =~= bgra@);
        assert(out@ =~= Seq::<u8>::empty());
    }
    while n - i >= 4
        invariant
            i <= n,
            n == bgra@.len(),
            out@ + rgba_of(bgra@.skip(i as int)) == rgba_of(bgra@),
        decreases n - i,
    {
        proof {
            let s = bgra@.skip(i as int);
            assert(s[0] == bgra@[i as int]);
            assert(s[1] == bgra@[i as int + 1]);
            assert(s[2] == bgra@[i as int + 2]);
            assert(s[3] == bgra@[i as int + 3]);
            assert(s.skip(4) =~= bgra@.skip(i as int + 4));
        }
        let ghost before = out@;
        out.push(bgra[i + 2]);
        out.push(bgra[i + 1]);
        out.push(bgra[i]);
        out.push(bgra[i + 3]);
        proof {
            let s = bgra@.skip(i as int);
            assert(out@ =~= before + seq![s[2], s[1], s[0], s[3]]);
            assert(out@ + rgba_of(bgra@.skip(i as int + 4)) =~= before + rgba_of(s));
        }
        i += 4;
    }
    let mut j: usize = i;
    proof {
        assert(rgba_of(bgra@.skip(j as int)) == bgra@.skip(j as int));
    }
    while j < n
        invariant
            j <= n,
            n == bgra@.len(),
            out@ + bgra@.skip(j as int) == rgba_of(bgra@),
        decreases n - j,
    {
        proof {
            assert(bgra@.skip(j as int)[0] == bgra@[j as int]);
            assert(bgra@.skip(j as int).drop_first() =~= bgra@.skip(j as int + 1));
        }
        let ghost before = out@;
        out.push(bgra[j]);
        proof {
            assert(out@ + bgra@.skip(j as int + 1) =~= before + bgra@.skip(j as int));
        }
        j += 1;
    }
    proof {
        assert(bgra@.skip(n as int) =~= Seq::<u8>::empty());
        assert(out@ =~= out@ + bgra@.skip(n as int));
    }
    out
}

} // verus!
