//! Consistent Overhead Byte Stuffing (Cheshire–Baker), without the trailing
//! delimiter.

use vstd::prelude::*;

verus! {

/// Number of leading non-zero bytes of `s`.
pub open spec fn nz_run(s: Seq<u8>) -> nat
    decreases s.len(),
{
    if s.len() == 0 || s[0] == 0 {
        0
    } else {
        1 + nz_run(s.drop_first())
    }
}

/// Length of the data of the first block: the leading non-zero bytes, at
/// most 254 of them.
pub open spec fn block_len(s: Seq<u8>) -> nat {
    if nz_run(s) < 254 {
        nz_run(s)
    } else {
        254
    }
}

pub proof fn lemma_nz_run(s: Seq<u8>)
    ensures
        nz_run(s) <= s.len(),
        forall|j: int| 0 <= j < nz_run(s) ==> s[j] != 0,
        nz_run(s) < s.len() ==> s[nz_run(s) as int] == 0,
    decreases s.len(),
{
    if s.len() > 0 && s[0] != 0 {
        lemma_nz_run(s.drop_first());
        assert forall|j: int| 0 <= j < nz_run(s) implies s[j] != 0 by {
            if j > 0 {
                assert(s[j] == s.drop_first()[j - 1]);
            }
        }
    }
}

/// `nz_run(s)` is at least `k` when the first `k` bytes are non-zero.
proof fn lemma_nz_run_at_least(s: Seq<u8>, k: int)
    requires
        0 <= k <= s.len(),
        forall|j: int| 0 <= j < k ==> s[j] != 0,
    ensures
        nz_run(s) >= k,
    decreases k,
{
    if k > 0 {
        assert forall|j: int| 0 <= j < k - 1 implies s.drop_first()[j] != 0 by {
            assert(s.drop_first()[j] == s[j + 1]);
        }
        lemma_nz_run_at_least(s.drop_first(), k - 1);
    }
}

/// The COBS encoding of `s`: blocks of a code byte (data length + 1) and up
/// to 254 non-zero data bytes. A block shorter than 254 stands for its data
/// and the zero after it; the last block has no zero after it.
pub open spec fn cobs_enc(s: Seq<u8>) -> Seq<u8>
    decreases s.len(),
{
    let k = block_len(s);
    proof {
        lemma_nz_run(s);
    }
    if k == 254 {
        seq![255u8] + s.take(254) + cobs_enc(s.skip(254))
    } else if k < s.len() {
        seq![(k + 1) as u8] + s.take(k as int) + cobs_enc(s.skip(k + 1int))
    } else {
        seq![(k + 1) as u8] + s
    }
}

/// Decodes COBS: `None` on a zero code, a code past the end of the input, or
/// a zero inside a block. A full block (code 255) adds no zero after its data,
/// and neither does the last block, so both the form with and without a
/// final 0x01 after a full block are accepted.
pub open spec fn cobs_dec(s: Seq<u8>) -> Option<Seq<u8>>
    decreases s.len(),
{
    if s.len() == 0 {
        Some(seq![])
    } else {
        let code = s[0];
        if code == 0 || code > s.len() {
            None
        } else {
            let run = s.subrange(1, code as int);
            let rest = s.skip(code as int);
            if run.contains(0u8) {
                None
            } else {
                match cobs_dec(rest) {
                    None => None,
                    Some(d) => Some(
                        run + (if code < 255 && rest.len() > 0 {
                            seq![0u8]
                        } else {
                            seq![]
                        }) + d,
                    ),
                }
            }
        }
    }
}

/// Decoding never lengthens: each block yields at most as many bytes as
/// it occupies.
pub proof fn lemma_cobs_dec_len(s: Seq<u8>)
    ensures
        cobs_dec(s) matches Some(d) ==> d.len() <= s.len(),
    decreases s.len(),
{
    if s.len() > 0 {
        let code = s[0];
        if code != 0 && code <= s.len() {
            lemma_cobs_dec_len(s.skip(code as int));
        }
    }
}

/// `p` put before the decoded bytes, if any.
pub open spec fn prepend(p: Seq<u8>, o: Option<Seq<u8>>) -> Option<Seq<u8>> {
    match o {
        Some(d) => Some(p + d),
        None => None,
    }
}

pub(crate) proof fn lemma_cobs_enc_len(s: Seq<u8>)
    ensures
        cobs_enc(s).len() >= 1 + block_len(s),
        cobs_enc(s).len() >= 1,
{
    lemma_nz_run(s);
}

/// Cheshire–Baker COBS without the trailing delimiter. Returns the encoded
/// length, or `None` when `dst` is too small.
pub fn cobs_encode(src: &[u8], dst: &mut [u8]) -> (r: Option<usize>)
    ensures
        final(dst)@.len() == old(dst)@.len(),
        r is Some <==> cobs_enc(src@).len() <= old(dst)@.len(),
        r matches Some(n) ==> n == cobs_enc(src@).len() && final(dst)@ == cobs_enc(src@) + old(
            dst,
        )@.skip(n as int),
        cobs_enc(src@).len() == src@.len() + 1 + run_codes(src@),
        r matches Some(n) ==> !final(dst)@.take(n as int).contains(0u8),
{
    proof {
        law_cobs_enc_len(src@);
        lemma_cobs_no_zero(src@);
    }
    let len = dst.len();
    let slen = src.len();
    let ghost enc = cobs_enc(src@);
    if len == 0 {
        proof {
            lemma_cobs_enc_len(src@);
        }
        return None;
    }
    let mut code_at: usize = 0;
    let mut n: usize = 1;
    let mut code: u8 = 1;
    let mut i: usize = 0;
    let ghost mut start: int = 0;
    let ghost mut done: Seq<u8> = seq![];
    assert(src@.skip(0) =~= src@);
    assert(done + cobs_enc(src@.skip(0)) =~= enc);
    while i < slen
        invariant
            len == dst@.len(),
            len == old(dst)@.len(),
            slen == src@.len(),
            enc == cobs_enc(src@),
            enc.len() == src@.len() + 1 + run_codes(src@),
            !enc.contains(0u8),
            0 <= start <= i <= slen,
            1 <= code <= 254,
            code == i - start + 1,
            forall|j: int| start <= j < i ==> src@[j] != 0,
            n == code_at + code,
            code_at < len,
            n <= len,
            done.len() == code_at,
            done + cobs_enc(src@.skip(start)) == enc,
            forall|j: int| 0 <= j < code_at ==> dst@[j] == done[j],
            forall|j: int| code_at < j < n ==> #[trigger] dst@[j] == src@[start + (j - code_at - 1)],
            forall|j: int| n <= j < len ==> dst@[j] == old(dst)@[j],
        decreases slen - i,
    {
        let b = src[i];
        let ghost s = src@.skip(start);
        proof {
            lemma_nz_run(s);
            assert forall|j: int| 0 <= j < i - start implies s[j] != 0 by {
                assert(s[j] == src@[start + j]);
            }
        }
        if b == 0 {
            proof {
                assert(s[i - start] == 0);
                lemma_nz_run_at_least(s, i - start);
                assert(nz_run(s) == i - start);
                assert(s.skip(i - start + 1) =~= src@.skip(i + 1));
                assert(s.take(i - start) =~= src@.subrange(start, i as int));
            }
            dst[code_at] = code;
            let ghost block = seq![code] + src@.subrange(start, i as int);
            proof {
                assert(cobs_enc(s) == block + cobs_enc(src@.skip(i + 1)));
                assert(done + block + cobs_enc(src@.skip(i + 1)) =~= enc);
                assert forall|j: int| 0 <= j < n implies dst@[j] == (done + block)[j] by {
                    if j > code_at {
                        assert(dst@[j] == src@[start + (j - code_at - 1)]);
                    }
                }
                done = done + block;
                start = i + 1;
                lemma_cobs_enc_len(src@.skip(i + 1));
            }
            code_at = n;
            if code_at >= len {
                return None;
            }
            n = n + 1;
            code = 1;
        } else {
            if n >= len {
                proof {
                    lemma_nz_run_at_least(s, i - start + 1);
                    lemma_cobs_enc_len(s);
                }
                return None;
            }
            dst[n] = b;
            n = n + 1;
            code = code + 1;
            if code == 0xFF {
                proof {
                    lemma_nz_run_at_least(s, 254);
                    assert(s.skip(254) =~= src@.skip(i + 1));
                    assert(s.take(254) =~= src@.subrange(start, i + 1));
                }
                if code_at >= len {
                    return None;
                }
                dst[code_at] = code;
                let ghost block = seq![255u8] + src@.subrange(start, i + 1);
                proof {
                    assert(cobs_enc(s) == block + cobs_enc(src@.skip(i + 1)));
                    assert(done + block + cobs_enc(src@.skip(i + 1)) =~= enc);
                    assert forall|j: int| 0 <= j < n implies dst@[j] == (done + block)[j] by {
                        if j > code_at {
                            assert(dst@[j] == src@[start + (j - code_at - 1)]);
                        }
                    }
                    done = done + block;
                    start = i + 1;
                    lemma_cobs_enc_len(src@.skip(i + 1));
                }
                code_at = n;
                if code_at >= len {
                    return None;
                }
                n = n + 1;
                code = 1;
            }
        }
        i = i + 1;
    }
    let ghost s = src@.skip(start);
    proof {
        assert forall|j: int| 0 <= j < s.len() implies s[j] != 0 by {
            assert(s[j] == src@[start + j]);
        }
        lemma_nz_run_at_least(s, s.len() as int);
        lemma_nz_run(s);
        assert(cobs_enc(s) == seq![code] + s);
    }
    dst[code_at] = code;
    assert(dst@ =~= enc + old(dst)@.skip(n as int)) by {
        assert forall|j: int| code_at < j < n implies dst@[j] == s[j - code_at - 1] by {
            assert(dst@[j] == src@[start + (j - code_at - 1)]);
        }
    }
    Some(n)
}

fn has_zero(b: &[u8]) -> (r: bool)
    ensures
        r == b@.contains(0u8),
{
    let n = b.len();
    let mut k: usize = 0;
    while k < n
        invariant
            n == b@.len(),
            k <= n,
            forall|j: int| 0 <= j < k ==> b@[j] != 0,
        decreases n - k,
    {
        if b[k] == 0 {
            assert(b@[k as int] == 0);
            return true;
        }
        k = k + 1;
    }
    false
}

/// Decodes COBS; accepts both the form with and without a trailing `0x01`
/// after a full 254-byte run. `None` on malformed input or when `dst` is too
/// small.
pub fn cobs_decode(src: &[u8], dst: &mut [u8]) -> (r: Option<usize>)
    ensures
        final(dst)@.len() == old(dst)@.len(),
        r is Some <==> (cobs_dec(src@) matches Some(d) && d.len() <= old(dst)@.len()),
        r matches Some(n) ==> n <= old(dst)@.len() && cobs_dec(src@) == Some(final(dst)@.take(n as int)) && final(dst)@.skip(
            n as int,
        ) == old(dst)@.skip(n as int),
{
    let slen = src.len();
    let len = dst.len();
    let mut i: usize = 0;
    let mut n: usize = 0;
    assert(src@.skip(0) =~= src@);
    assert(dst@.take(0) =~= seq![]);
    while i < slen
        invariant
            slen == src@.len(),
            len == dst@.len(),
            len == old(dst)@.len(),
            i <= slen,
            n <= len,
            cobs_dec(src@) == prepend(dst@.take(n as int), cobs_dec(src@.skip(i as int))),
            forall|j: int| n <= j < len ==> dst@[j] == old(dst)@[j],
        decreases slen - i,
    {
        let ghost s = src@.skip(i as int);
        let ghost before = dst@.take(n as int);
        let code = src[i] as usize;
        assert(code == s[0]);
        if code == 0 {
            return None;
        }
        if code > slen - i {
            return None;
        }
        let run = vstd::slice::slice_subrange(src, i + 1, i + code);
        assert(run@ =~= s.subrange(1, code as int));
        let rlen = code - 1;
        if has_zero(run) {
            return None;
        }
        assert(!run@.contains(0u8));
        let ghost rest = s.skip(code as int);
        assert(rest =~= src@.skip(i + code));
        let ghost sep: Seq<u8> = if code < 255 && rest.len() > 0 {
            seq![0u8]
        } else {
            seq![]
        };
        assert(cobs_dec(s) == prepend(run@ + sep, cobs_dec(rest)));
        if rlen > len - n {
            return None;
        }
        let mut k: usize = 0;
        while k < rlen
            invariant
                rlen == run@.len(),
                len == dst@.len(),
                len == old(dst)@.len(),
                n + rlen <= len,
                k <= rlen,
                forall|j: int| 0 <= j < n ==> dst@[j] == before[j],
                before.len() == n,
                forall|j: int| 0 <= j < k ==> dst@[n + j] == run@[j],
                forall|j: int| n + rlen <= j < len ==> dst@[j] == old(dst)@[j],
            decreases rlen - k,
        {
            dst[n + k] = run[k];
            k = k + 1;
        }
        n = n + rlen;
        i = i + code;
        if code < 0xFF && i < slen {
            if n >= len {
                return None;
            }
            dst[n] = 0;
            n = n + 1;
        }
        assert(dst@.take(n as int) =~= before + run@ + sep);
        assert(cobs_dec(src@) == prepend(dst@.take(n as int), cobs_dec(src@.skip(i as int))));
    }
    assert(src@.skip(i as int) =~= seq![]);
    assert(dst@.take(n as int) + seq![] =~= dst@.take(n as int));
    assert(dst@.skip(n as int) =~= old(dst)@.skip(n as int));
    Some(n)
}

proof fn lemma_cobs_no_zero(s: Seq<u8>)
    ensures
        !cobs_enc(s).contains(0u8),
    decreases s.len(),
{
    lemma_nz_run(s);
    let k = block_len(s);
    let e = cobs_enc(s);
    if k == 254 {
        lemma_cobs_no_zero(s.skip(254));
        let rest = cobs_enc(s.skip(254));
        assert forall|j: int| 0 <= j < e.len() implies e[j] != 0 by {
            if j > 254 {
                assert(e[j] == rest[j - 255]);
            }
        }
    } else if k < s.len() {
        lemma_cobs_no_zero(s.skip(k + 1int));
        let rest = cobs_enc(s.skip(k + 1int));
        assert forall|j: int| 0 <= j < e.len() implies e[j] != 0 by {
            if j > k {
                assert(e[j] == rest[j - k - 1]);
            }
        }
    }
}

proof fn lemma_cobs_roundtrip(s: Seq<u8>)
    ensures
        cobs_dec(cobs_enc(s)) == Some(s),
    decreases s.len(),
{
    lemma_nz_run(s);
    let k = block_len(s);
    let e = cobs_enc(s);
    if k == 254 {
        let rest = s.skip(254);
        lemma_cobs_roundtrip(rest);
        lemma_cobs_enc_len(rest);
        assert(e.subrange(1, 255) =~= s.take(254));
        assert(e.skip(255) =~= cobs_enc(rest));
        assert(!s.take(254).contains(0u8));
        assert(s.take(254) + seq![] + rest =~= s);
    } else if k < s.len() {
        let rest = s.skip(k + 1int);
        lemma_cobs_roundtrip(rest);
        lemma_cobs_enc_len(rest);
        assert(e.subrange(1, k + 1int) =~= s.take(k as int));
        assert(e.skip(k + 1int) =~= cobs_enc(rest));
        assert(!s.take(k as int).contains(0u8));
        assert(s.take(k as int) + seq![0u8] + rest =~= s);
    } else {
        assert(e[0] == k + 1);
        assert(cobs_dec(seq![]) == Some(Seq::<u8>::empty()));
        assert(e.subrange(1, k + 1int) =~= s);
        assert(e.skip(k + 1int) =~= seq![]);
        assert(!s.contains(0u8));
        assert(s + seq![] + seq![] =~= s);
    }
}

/// Decoding the encoding of any byte string gives it back.
pub proof fn law_cobs_roundtrip(s: Seq<u8>)
    ensures
        cobs_dec(cobs_enc(s)) == Some(s),
{
    lemma_cobs_roundtrip(s);
}

/// The encoding of any byte string holds no zero byte, so a zero can
/// delimit frames.
pub proof fn law_cobs_no_zero(s: Seq<u8>)
    ensures
        !cobs_enc(s).contains(0u8),
{
    lemma_cobs_no_zero(s);
}

/// A block of up to 254 data bytes costs one code byte, so the encoding is at
/// most `len + len / 254 + 1` long.
pub proof fn lemma_cobs_enc_bound(s: Seq<u8>)
    ensures
        254 * cobs_enc(s).len() <= 255 * s.len() + 254,
    decreases s.len(),
{
    lemma_nz_run(s);
    let k = block_len(s);
    if k == 254 {
        lemma_cobs_enc_bound(s.skip(254));
    } else if k < s.len() {
        lemma_cobs_enc_bound(s.skip(k + 1int));
    }
}

/// One extra code byte for every full 254 bytes of each maximal run of
/// non-zero bytes of `s` (the runs between the zeros).
pub open spec fn run_codes(s: Seq<u8>) -> nat
    decreases s.len(),
{
    let k = nz_run(s);
    proof {
        lemma_nz_run(s);
    }
    if k >= s.len() {
        k / 254
    } else {
        k / 254 + run_codes(s.skip(k + 1int))
    }
}

proof fn lemma_nz_run_skip(s: Seq<u8>, j: int)
    requires
        0 <= j <= nz_run(s),
    ensures
        nz_run(s.skip(j)) == nz_run(s) - j,
    decreases j,
{
    lemma_nz_run(s);
    if j == 0 {
        assert(s.skip(0) =~= s);
    } else {
        assert(s[0] != 0);
        assert(s.skip(j) =~= s.drop_first().skip(j - 1));
        lemma_nz_run_skip(s.drop_first(), j - 1);
    }
}

/// The COBS encoding is one byte longer than the input, plus one code byte
/// for every full 254 bytes of each run of non-zero bytes; so at most
/// `len + len / 254 + 1`.
pub proof fn law_cobs_enc_len(s: Seq<u8>)
    ensures
        cobs_enc(s).len() == s.len() + 1 + run_codes(s),
        cobs_enc(s).len() <= s.len() + s.len() / 254 + 1,
    decreases s.len(),
{
    lemma_nz_run(s);
    lemma_cobs_enc_bound(s);
    let k = block_len(s);
    let nz = nz_run(s);
    if k == 254 {
        let t = s.skip(254);
        law_cobs_enc_len(t);
        lemma_nz_run_skip(s, 254);
        if nz < s.len() {
            assert(t.skip(nz - 254 + 1) =~= s.skip(nz + 1int));
        }
        assert(run_codes(t) == run_codes(s) - 1);
    } else if k < s.len() {
        law_cobs_enc_len(s.skip(k + 1int));
    }
}

} // verus!
