//! The LZS decompression codec.
//!
//! A compressed stream is a sequence of control units. A mask byte governs
//! the next eight units, one bit each, least significant bit first: bit 1
//! means "copy one literal byte from the source", bit 0 means "emit a
//! back-reference". A back-reference is a little-endian 16-bit token whose
//! low 4 bits plus 2 give a copy length (2 to 17) and whose high 12 bits give
//! a back-distance; distance 0 repeats the last output byte (a run fill),
//! and a distance smaller than the length copies forward byte by byte, so
//! bytes just written become sources for later positions of the same copy.
//!
//! Malformed or truncated input is never followed past the buffers it
//! oversteps: it is reported as [`DecodeError::Truncated`].

use vstd::prelude::*;

use crate::wire::le16_at;
use crate::wire::read_u16_le;

verus! {

/// Error of the decompression codec: the source ran out, a back-reference
/// reached before the start of the output, or a token asked for more bytes
/// than are still owed.
#[derive(Clone, Copy, Debug, PartialEq, Eq, Structural)]
pub enum DecodeError {
    Truncated,
}

/// `out` extended by `len` bytes copied forward one at a time from position
/// `start`: each copied byte may itself be a byte the same copy has just
/// written (read-after-write aliasing, forward order). With
/// `start == out.len() - 1` this is a run fill of the last byte.
pub open spec fn lz_extend(out: Seq<u8>, start: int, len: int) -> Seq<u8>
    decreases len,
{
    if len <= 0 {
        out
    } else {
        lz_extend(out.push(out[start]), start + 1, len - 1)
    }
}

/// The control-bit cursor rotates through the mask byte: after bit 7 comes
/// bit 0 of a freshly read mask.
pub open spec fn next_bit(bits: u8) -> u8 {
    if bits == 0x80 {
        1
    } else {
        (bits * 2) as u8
    }
}

/// The decoder, one control unit per unfolding, from an intermediate state:
/// `i` is the next source position, `out` what has been decoded, `mask` the
/// current mask byte, `bits` the single-bit cursor into it (a fresh mask is
/// read when `bits` is 1), and `rem` the number of output bytes still owed.
/// `None` is a malformed or truncated stream.
pub open spec fn lzs_from(
    src: Seq<u8>,
    i: int,
    out: Seq<u8>,
    mask: u8,
    bits: u8,
    rem: int,
) -> Option<Seq<u8>>
    decreases rem,
{
    if rem <= 0 {
        Some(out)
    } else if bits == 1 && !(0 <= i < src.len()) {
        None
    } else {
        let m = if bits == 1 {
            src[i]
        } else {
            mask
        };
        let j = if bits == 1 {
            i + 1
        } else {
            i
        };
        if m & bits != 0 {
            if 0 <= j < src.len() {
                lzs_from(src, j + 1, out.push(src[j]), m, next_bit(bits), rem - 1)
            } else {
                None
            }
        } else {
            if 0 <= j && j + 2 <= src.len() {
                let tok = le16_at(src, j);
                let len = tok % 16 + 2;
                let start = out.len() - (tok / 16) - 1;
                if start >= 0 && len <= rem {
                    lzs_from(src, j + 2, lz_extend(out, start, len), m, next_bit(bits), rem - len)
                } else {
                    None
                }
            } else {
                None
            }
        }
    }
}

/// What decompression of `src` yields when exactly `target` output bytes are
/// owed: `Some` of the output, or `None` for a malformed or truncated stream.
pub open spec fn lzs(src: Seq<u8>, target: int) -> Option<Seq<u8>> {
    lzs_from(src, 0, Seq::empty(), 0, 1, target)
}

/// One decompression unit as a matching compressor emits it.
pub enum LzsToken {
    /// One literal byte; its control bit is 1.
    Literal(u8),
    /// A back-reference; its control bit is 0: copy `len` bytes starting
    /// `dist + 1` positions behind the output end. `dist == 0` repeats the
    /// last output byte `len` times.
    Back { dist: u16, len: u8 },
}

/// A token a compressor may emit when `out_len` bytes are already written:
/// a back-reference must fit the 4-bit length and 12-bit distance fields
/// and reach no further back than the output written so far.
pub open spec fn tok_wf(out_len: int, t: LzsToken) -> bool {
    match t {
        LzsToken::Literal(_) => true,
        LzsToken::Back { dist, len } => 2 <= len <= 17 && dist <= 4095 && dist + 1 <= out_len,
    }
}

/// How many output bytes `t` produces.
pub open spec fn tok_len(t: LzsToken) -> int {
    match t {
        LzsToken::Literal(_) => 1,
        LzsToken::Back { dist, len } => len as int,
    }
}

/// The output after `t`, given the output `out` so far.
pub open spec fn tok_out(out: Seq<u8>, t: LzsToken) -> Seq<u8> {
    match t {
        LzsToken::Literal(b) => out.push(b),
        LzsToken::Back { dist, len } => lz_extend(out, out.len() - dist - 1, len as int),
    }
}

/// A whole token sequence is well-formed: each token is well-formed for the
/// output length it sees.
pub open spec fn tokens_wf(out_len: int, ts: Seq<LzsToken>) -> bool
    decreases ts.len(),
{
    ts.len() == 0 || (tok_wf(out_len, ts[0]) && tokens_wf(
        out_len + tok_len(ts[0]),
        ts.drop_first(),
    ))
}

/// Total output bytes of a token sequence.
pub open spec fn tokens_len(ts: Seq<LzsToken>) -> int
    decreases ts.len(),
{
    if ts.len() == 0 {
        0
    } else {
        tok_len(ts[0]) + tokens_len(ts.drop_first())
    }
}

/// The output after a whole token sequence.
pub open spec fn tokens_out(out: Seq<u8>, ts: Seq<LzsToken>) -> Seq<u8>
    decreases ts.len(),
{
    if ts.len() == 0 {
        out
    } else {
        tokens_out(tok_out(out, ts[0]), ts.drop_first())
    }
}

/// The encoded body of one token: the literal byte itself, or the
/// little-endian 16-bit back-reference word.
pub open spec fn tok_body(t: LzsToken) -> Seq<u8> {
    match t {
        LzsToken::Literal(b) => seq![b],
        LzsToken::Back { dist, len } => {
            let w = dist * 16 + (len - 2);
            seq![(w % 256) as u8, (w / 256) as u8]
        },
    }
}

/// Control bit `j` of a group's mask byte: 1 for a literal.
pub open spec fn mask_bit(ts: Seq<LzsToken>, j: int) -> u8 {
    if j < ts.len() && ts[j] is Literal {
        1
    } else {
        0
    }
}

/// The mask byte a compressor emits before a group of up to eight tokens,
/// least significant bit first.
pub open spec fn group_mask(ts: Seq<LzsToken>) -> u8 {
    (mask_bit(ts, 0) + 2 * mask_bit(ts, 1) + 4 * mask_bit(ts, 2) + 8 * mask_bit(ts, 3) + 16
        * mask_bit(ts, 4) + 32 * mask_bit(ts, 5) + 64 * mask_bit(ts, 6) + 128 * mask_bit(
        ts,
        7,
    )) as u8
}

/// The concatenated bodies of a group's tokens from position `j` on.
pub open spec fn group_bodies(ts: Seq<LzsToken>, j: int) -> Seq<u8>
    decreases 8 - j,
{
    if j >= 8 || j >= ts.len() {
        Seq::empty()
    } else {
        tok_body(ts[j]) + group_bodies(ts, j + 1)
    }
}

/// What a matching compressor emits for `ts`: one mask byte per group of
/// eight tokens, each followed by its group's token bodies.
pub open spec fn encode_tokens(ts: Seq<LzsToken>) -> Seq<u8>
    decreases ts.len(),
{
    if ts.len() == 0 {
        Seq::empty()
    } else if ts.len() <= 8 {
        seq![group_mask(ts)] + group_bodies(ts, 0)
    } else {
        seq![group_mask(ts)] + group_bodies(ts, 0) + encode_tokens(ts.skip(8))
    }
}

/// The single control bit at position `j` of a mask byte.
pub open spec fn bit_of(j: int) -> u8 {
    if j == 0 {
        1
    } else if j == 1 {
        2
    } else if j == 2 {
        4
    } else if j == 3 {
        8
    } else if j == 4 {
        16
    } else if j == 5 {
        32
    } else if j == 6 {
        64
    } else {
        128
    }
}

proof fn lemma_lz_extend_len(out: Seq<u8>, start: int, len: int)
    ensures
        len >= 0 ==> lz_extend(out, start, len).len() == out.len() + len,
        len < 0 ==> lz_extend(out, start, len).len() == out.len(),
    decreases len,
{
    if len > 0 {
        lemma_lz_extend_len(out.push(out[start]), start + 1, len - 1);
    }
}

proof fn lemma_tokens_len_nonneg(ts: Seq<LzsToken>)
    ensures
        tokens_len(ts) >= 0,
    decreases ts.len(),
{
    if ts.len() > 0 {
        lemma_tokens_len_nonneg(ts.drop_first());
    }
}

/// A token sequence's output is exactly [`tokens_len`] bytes long, so the
/// round trip below decodes at precisely the original input's length.
pub proof fn lemma_tokens_out_len(out: Seq<u8>, ts: Seq<LzsToken>)
    ensures
        tokens_out(out, ts).len() == out.len() + tokens_len(ts),
    decreases ts.len(),
{
    if ts.len() > 0 {
        match ts[0] {
            LzsToken::Literal(_) => {},
            LzsToken::Back { dist, len } => {
                lemma_lz_extend_len(out, out.len() - dist - 1, len as int);
            },
        }
        lemma_tokens_out_len(tok_out(out, ts[0]), ts.drop_first());
    }
}

proof fn lemma_group_mask_bit(ts: Seq<LzsToken>, j: int)
    requires
        0 <= j < 8,
    ensures
        (group_mask(ts) & bit_of(j) != 0) <==> (j < ts.len() && ts[j] is Literal),
{
    let c0 = mask_bit(ts, 0);
    let c1 = mask_bit(ts, 1);
    let c2 = mask_bit(ts, 2);
    let c3 = mask_bit(ts, 3);
    let c4 = mask_bit(ts, 4);
    let c5 = mask_bit(ts, 5);
    let c6 = mask_bit(ts, 6);
    let c7 = mask_bit(ts, 7);
    let m = group_mask(ts);
    assert(m == c0 + 2 * c1 + 4 * c2 + 8 * c3 + 16 * c4 + 32 * c5 + 64 * c6 + 128 * c7);
    if j == 0 {
        assert(m & 1 == c0) by (bit_vector)
            requires
                m == c0 + 2 * c1 + 4 * c2 + 8 * c3 + 16 * c4 + 32 * c5 + 64 * c6 + 128 * c7,
                c0 <= 1 && c1 <= 1 && c2 <= 1 && c3 <= 1 && c4 <= 1 && c5 <= 1 && c6 <= 1 && c7
                    <= 1,
        ;
    } else if j == 1 {
        assert(m & 2 == 2 * c1) by (bit_vector)
            requires
                m == c0 + 2 * c1 + 4 * c2 + 8 * c3 + 16 * c4 + 32 * c5 + 64 * c6 + 128 * c7,
                c0 <= 1 && c1 <= 1 && c2 <= 1 && c3 <= 1 && c4 <= 1 && c5 <= 1 && c6 <= 1 && c7
                    <= 1,
        ;
    } else if j == 2 {
        assert(m & 4 == 4 * c2) by (bit_vector)
            requires
                m == c0 + 2 * c1 + 4 * c2 + 8 * c3 + 16 * c4 + 32 * c5 + 64 * c6 + 128 * c7,
                c0 <= 1 && c1 <= 1 && c2 <= 1 && c3 <= 1 && c4 <= 1 && c5 <= 1 && c6 <= 1 && c7
                    <= 1,
        ;
    } else if j == 3 {
        assert(m & 8 == 8 * c3) by (bit_vector)
            requires
                m == c0 + 2 * c1 + 4 * c2 + 8 * c3 + 16 * c4 + 32 * c5 + 64 * c6 + 128 * c7,
                c0 <= 1 && c1 <= 1 && c2 <= 1 && c3 <= 1 && c4 <= 1 && c5 <= 1 && c6 <= 1 && c7
                    <= 1,
        ;
    } else if j == 4 {
        assert(m & 16 == 16 * c4) by (bit_vector)
            requires
                m == c0 + 2 * c1 + 4 * c2 + 8 * c3 + 16 * c4 + 32 * c5 + 64 * c6 + 128 * c7,
                c0 <= 1 && c1 <= 1 && c2 <= 1 && c3 <= 1 && c4 <= 1 && c5 <= 1 && c6 <= 1 && c7
                    <= 1,
        ;
    } else if j == 5 {
        assert(m & 32 == 32 * c5) by (bit_vector)
            requires
                m == c0 + 2 * c1 + 4 * c2 + 8 * c3 + 16 * c4 + 32 * c5 + 64 * c6 + 128 * c7,
                c0 <= 1 && c1 <= 1 && c2 <= 1 && c3 <= 1 && c4 <= 1 && c5 <= 1 && c6 <= 1 && c7
                    <= 1,
        ;
    } else if j == 6 {
        assert(m & 64 == 64 * c6) by (bit_vector)
            requires
                m == c0 + 2 * c1 + 4 * c2 + 8 * c3 + 16 * c4 + 32 * c5 + 64 * c6 + 128 * c7,
                c0 <= 1 && c1 <= 1 && c2 <= 1 && c3 <= 1 && c4 <= 1 && c5 <= 1 && c6 <= 1 && c7
                    <= 1,
        ;
    } else {
        assert(m & 128 == 128 * c7) by (bit_vector)
            requires
                m == c0 + 2 * c1 + 4 * c2 + 8 * c3 + 16 * c4 + 32 * c5 + 64 * c6 + 128 * c7,
                c0 <= 1 && c1 <= 1 && c2 <= 1 && c3 <= 1 && c4 <= 1 && c5 <= 1 && c6 <= 1 && c7
                    <= 1,
        ;
    }
}

proof fn lemma_group_bodies_take8(ts: Seq<LzsToken>, j: int)
    requires
        ts.len() > 8,
        0 <= j <= 8,
    ensures
        group_bodies(ts.take(8), j) == group_bodies(ts, j),
    decreases 8 - j,
{
    if j < 8 {
        lemma_group_bodies_take8(ts, j + 1);
    }
}

/// The decoder consumes one group position after another: from any state
/// aligned at token `j` of a group whose mask byte the decoder holds (or is
/// about to read, for `j == 0`), it reproduces exactly the remaining
/// tokens' output.
#[verifier::rlimit(100)]
#[verifier::spinoff_prover]
proof fn lemma_decode_group(
    src: Seq<u8>,
    i: int,
    out: Seq<u8>,
    mask: u8,
    gts: Seq<LzsToken>,
    j: int,
    rts: Seq<LzsToken>,
)
    requires
        0 < gts.len() <= 8,
        gts.len() == 8 || rts.len() == 0,
        0 <= j < gts.len(),
        tokens_wf(out.len() as int, gts.skip(j) + rts),
        j > 0 ==> mask == group_mask(gts),
        0 <= i,
        j == 0 ==> i + 1 + group_bodies(gts, 0).len() + encode_tokens(rts).len() <= src.len()
            && src.subrange(i, i + 1 + group_bodies(gts, 0).len() + encode_tokens(rts).len())
            == seq![group_mask(gts)] + group_bodies(gts, 0) + encode_tokens(rts),
        j > 0 ==> i + group_bodies(gts, j).len() + encode_tokens(rts).len() <= src.len()
            && src.subrange(i, i + group_bodies(gts, j).len() + encode_tokens(rts).len())
            == group_bodies(gts, j) + encode_tokens(rts),
    ensures
        lzs_from(src, i, out, mask, bit_of(j), tokens_len(gts.skip(j) + rts)) == Some(
            tokens_out(out, gts.skip(j) + rts),
        ),
    decreases gts.len() - j + rts.len(),
{
    let remaining = gts.skip(j) + rts;
    let t = gts[j];
    assert(remaining[0] == t);
    let rem = tokens_len(remaining);
    let rest_toks = remaining.drop_first();
    assert(rest_toks =~= gts.skip(j + 1) + rts);
    lemma_tokens_len_nonneg(rest_toks);
    assert(tok_wf(out.len() as int, t));
    assert(tok_len(t) >= 1);
    assert(rem == tok_len(t) + tokens_len(rest_toks));
    assert(rem > 0);

    let m = group_mask(gts);
    let bodies = group_bodies(gts, j);
    let rest = encode_tokens(rts);
    // where this token's body starts in src
    let base = if j == 0 {
        i + 1
    } else {
        i
    };
    let whole = if j == 0 {
        seq![m] + group_bodies(gts, 0) + rest
    } else {
        bodies + rest
    };
    assert(src.subrange(i, i + whole.len()) == whole);
    assert forall|k: int| 0 <= k < whole.len() implies src[i + k] == whole[k] by {
        assert(src.subrange(i, i + whole.len())[k] == src[i + k]);
    }
    if j == 0 {
        assert(src[i + 0] == whole[0]);
        assert(src[i] == m);
    }
    assert(bodies == tok_body(t) + group_bodies(gts, j + 1));
    assert forall|k: int| 0 <= k < tok_body(t).len() + group_bodies(gts, j + 1).len()
        + rest.len() implies src[base + k] == (bodies + rest)[k] by {
        if j == 0 {
            assert(src[i + (1 + k)] == whole[1 + k]);
            assert(whole[1 + k] == (bodies + rest)[k]);
        } else {
            assert(src[i + k] == whole[k]);
        }
    }

    lemma_group_mask_bit(gts, j);
    let out2 = tok_out(out, t);
    let i2 = base + tok_body(t).len();
    let rem2 = tokens_len(rest_toks);
    assert(tokens_wf(out2.len() as int, rest_toks)) by {
        match t {
            LzsToken::Literal(_) => {},
            LzsToken::Back { dist, len } => {
                lemma_lz_extend_len(out, out.len() - dist - 1, len as int);
            },
        }
    }

    // the decoder's one unfolding consumes exactly this token
    match t {
        LzsToken::Literal(b) => {
            assert(tok_body(t) == seq![b]);
            assert(src[base + 0] == (bodies + rest)[0]);
            assert((bodies + rest)[0] == tok_body(t)[0]);
            assert(src[base] == b);
            assert(m & bit_of(j) != 0);
        },
        LzsToken::Back { dist, len } => {
            let w = dist * 16 + (len - 2);
            assert(tok_body(t) == seq![(w % 256) as u8, (w / 256) as u8]);
            assert(src[base + 0] == (bodies + rest)[0]);
            assert((bodies + rest)[0] == tok_body(t)[0]);
            assert(src[base + 1] == (bodies + rest)[1]);
            assert((bodies + rest)[1] == tok_body(t)[1]);
            assert(src[base] == (w % 256) as u8);
            assert(src[base + 1] == (w / 256) as u8);
            assert(le16_at(src, base) == w) by {
                assert(w % 256 + 256 * (w / 256) == w);
            }
            assert(0 <= w <= 65535);
            assert(w % 16 == len - 2 && w / 16 == dist) by {
                assert(w == (len - 2) + 16 * (dist as int));
            }
            assert(m & bit_of(j) == 0);
            lemma_lz_extend_len(out, out.len() - dist - 1, len as int);
        },
    }

    // move to the next token, next group, or finish
    if j + 1 < gts.len() {
        assert(bit_of(j) != 0x80);
        assert(next_bit(bit_of(j)) == bit_of(j + 1));
        let tail = group_bodies(gts, j + 1) + rest;
        assert forall|q: int| 0 <= q < tail.len() implies src.subrange(
            i2,
            i2 + group_bodies(gts, j + 1).len() + rest.len(),
        )[q] == tail[q] by {
            assert(src[base + (tok_body(t).len() + q)] == (bodies + rest)[tok_body(t).len() + q]);
            assert((bodies + rest)[tok_body(t).len() + q] == tail[q]);
        }
        assert(src.subrange(i2, i2 + group_bodies(gts, j + 1).len() + rest.len()) =~= group_bodies(
            gts,
            j + 1,
        ) + rest);
        lemma_decode_group(src, i2, out2, m, gts, j + 1, rts);
        assert(lzs_from(src, i, out, mask, bit_of(j), rem) == lzs_from(
            src,
            i2,
            out2,
            m,
            next_bit(bit_of(j)),
            rem2,
        ));
    } else {
        // this token ends its group
        assert(group_bodies(gts, j + 1) == Seq::<u8>::empty());
        if rts.len() == 0 {
            assert(rest_toks =~= Seq::<LzsToken>::empty());
            assert(rem2 == 0);
            assert(lzs_from(src, i2, out2, m, next_bit(bit_of(j)), 0) == Some(out2));
            assert(tokens_out(out, remaining) == tokens_out(out2, rest_toks));
            assert(rest_toks.len() == 0);
            assert(tokens_out(out2, rest_toks) == out2);
        } else {
            assert(gts.len() == 8 && j == 7);
            assert(next_bit(bit_of(7)) == 1);
            let gts2 = if rts.len() <= 8 {
                rts
            } else {
                rts.take(8)
            };
            let rts2 = if rts.len() <= 8 {
                Seq::<LzsToken>::empty()
            } else {
                rts.skip(8)
            };
            assert(gts2 + rts2 =~= rts);
            if rts.len() > 8 {
                lemma_group_bodies_take8(rts, 0);
                assert(group_mask(gts2) == group_mask(rts)) by {
                    assert(forall|q: int|
                        0 <= q < 8 ==> #[trigger] mask_bit(gts2, q) == mask_bit(rts, q));
                }
                assert(encode_tokens(rts) == seq![group_mask(gts2)] + group_bodies(gts2, 0)
                    + encode_tokens(rts2));
            } else {
                assert(encode_tokens(rts) == seq![group_mask(gts2)] + group_bodies(gts2, 0));
                assert(encode_tokens(rts2) == Seq::<u8>::empty());
                assert(encode_tokens(rts) =~= seq![group_mask(gts2)] + group_bodies(gts2, 0)
                    + encode_tokens(rts2));
            }
            assert(rest.len() == 1 + group_bodies(gts2, 0).len() + encode_tokens(rts2).len());
            assert forall|q: int| 0 <= q < rest.len() implies src.subrange(
                i2,
                i2 + rest.len(),
            )[q] == rest[q] by {
                assert(src[base + (tok_body(t).len() + q)] == (bodies + rest)[tok_body(t).len()
                    + q]);
                assert(bodies.len() == tok_body(t).len());
            }
            assert(src.subrange(i2, i2 + rest.len()) =~= rest);
            assert(src.subrange(i2, i2 + 1 + group_bodies(gts2, 0).len() + encode_tokens(
                rts2,
            ).len()) =~= seq![group_mask(gts2)] + group_bodies(gts2, 0) + encode_tokens(rts2));
            assert(gts2.skip(0) + rts2 =~= rest_toks);
            lemma_decode_group(src, i2, out2, m, gts2, 0, rts2);
            assert(lzs_from(src, i2, out2, m, 1, tokens_len(gts2.skip(0) + rts2)) == Some(
                tokens_out(out2, gts2.skip(0) + rts2),
            ));
        }
    }
    assert(tokens_out(out, remaining) == tokens_out(out2, rest_toks));
}

/// Round trip: decompressing what a matching compressor emitted restores
/// the original bytes. For any well-formed token sequence — literals,
/// overlapping back-references with distance smaller than length, and the
/// degenerate distance-0 run fills alike — decoding its encoding at its
/// exact output length yields exactly its output.
pub proof fn lemma_lzs_round_trip(ts: Seq<LzsToken>)
    requires
        tokens_wf(0, ts),
    ensures
        lzs(encode_tokens(ts), tokens_len(ts)) == Some(tokens_out(Seq::empty(), ts)),
{
    let src = encode_tokens(ts);
    if ts.len() == 0 {
        assert(tokens_len(ts) == 0);
    } else {
        let gts = if ts.len() <= 8 {
            ts
        } else {
            ts.take(8)
        };
        let rts = if ts.len() <= 8 {
            Seq::<LzsToken>::empty()
        } else {
            ts.skip(8)
        };
        assert(gts + rts =~= ts);
        if ts.len() > 8 {
            lemma_group_bodies_take8(ts, 0);
            assert(group_mask(gts) == group_mask(ts)) by {
                assert(forall|q: int|
                    0 <= q < 8 ==> #[trigger] mask_bit(gts, q) == mask_bit(ts, q));
            }
            assert(src == seq![group_mask(gts)] + group_bodies(gts, 0) + encode_tokens(rts));
        } else {
            assert(src == seq![group_mask(gts)] + group_bodies(gts, 0));
            assert(src =~= seq![group_mask(gts)] + group_bodies(gts, 0) + encode_tokens(rts));
        }
        assert(src.subrange(0, src.len() as int) =~= src);
        assert(gts.skip(0) + rts =~= ts);
        lemma_decode_group(src, 0, Seq::empty(), 0, gts, 0, rts);
    }
}

/// Decompresses `src` into a freshly allocated buffer of exactly
/// `target_len` bytes. The source is read strictly forward; back-references
/// that overlap the bytes they produce are copied forward byte by byte.
pub fn decompress_lzs(src: &[u8], target_len: usize) -> (r: Result<Vec<u8>, DecodeError>)
    ensures
        match r {
            Ok(v) => lzs(src@, target_len as int) == Some(v@) && v@.len() == target_len,
            Err(e) => lzs(src@, target_len as int) is None && e == DecodeError::Truncated,
        },
{
    let mut dst: Vec<u8> = Vec::new();
    let mut i: usize = 0;
    let mut mask: u8 = 0;
    let mut bits: u8 = 1;
    let mut rem: usize = target_len;

    while rem > 0
        invariant
            dst@.len() + rem == target_len,
            i <= src@.len(),
            bits == 1 || bits == 2 || bits == 4 || bits == 8 || bits == 0x10 || bits == 0x20
                || bits == 0x40 || bits == 0x80,
            lzs(src@, target_len as int) == lzs_from(
                src@,
                i as int,
                dst@,
                mask,
                bits,
                rem as int,
            ),
        decreases rem,
    {
        let ghost state0 = (i as int, dst@, mask, bits, rem as int);
        if bits == 1 {
            if i >= src.len() {
                return Err(DecodeError::Truncated);
            }
            mask = src[i];
            i = i + 1;
        }
        if mask & bits != 0 {
            // literal byte
            if i >= src.len() {
                return Err(DecodeError::Truncated);
            }
            let b = src[i];
            i = i + 1;
            dst.push(b);
            rem = rem - 1;
        } else {
            // back-reference token
            if src.len() - i < 2 {
                return Err(DecodeError::Truncated);
            }
            let tok = read_u16_le(src, i);
            i = i + 2;
            let len = (tok % 16) as usize + 2;
            let disp = (tok / 16) as usize;
            if dst.len() < disp + 1 {
                return Err(DecodeError::Truncated);
            }
            let start = dst.len() - disp - 1;
            if len > rem {
                return Err(DecodeError::Truncated);
            }
            let ghost out0 = dst@;
            let mut k: usize = 0;
            while k < len
                invariant
                    k <= len,
                    dst@.len() == out0.len() + k,
                    start + len <= out0.len() + 16,
                    start + k < dst@.len(),
                    lz_extend(out0, start as int, len as int) == lz_extend(
                        dst@,
                        start + k,
                        (len - k) as int,
                    ),
                decreases len - k,
            {
                let n = dst.len();
                assert(start + k < n);
                let b = dst[start + k];
                dst.push(b);
                k = k + 1;
            }
            assert(dst@ == lz_extend(out0, start as int, len as int));
            rem = rem - len;
        }
        bits = if bits == 0x80 {
            1
        } else {
            bits * 2
        };
        proof {
            assert(lzs_from(src@, state0.0, state0.1, state0.2, state0.3, state0.4) == lzs_from(
                src@,
                i as int,
                dst@,
                mask,
                bits,
                rem as int,
            ));
        }
    }
    Ok(dst)
}

} // verus!
