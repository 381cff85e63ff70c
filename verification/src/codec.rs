//! Encoding bytes into symbol streams and decoding them back.
//!
//! Each byte is split into four 2-bit groups, most significant first; each
//! group becomes one symbol. Decoding groups the incoming symbols into runs
//! of four and packs each run back into one byte.

use vstd::prelude::*;
use crate::symbols::{UguuError, symbol_of, is_symbol, code_of, uguu, uugu};

verus! {

/// The four symbols of one byte: bits 7-6, 5-4, 3-2, 1-0, in that order.
pub open spec fn encode_byte(b: u8) -> Seq<char> {
    seq![
        symbol_of((b >> 6) & 3),
        symbol_of((b >> 4) & 3),
        symbol_of((b >> 2) & 3),
        symbol_of(b & 3),
    ]
}

/// The symbol stream of a whole byte sequence, in stream order.
pub open spec fn encode_bytes(s: Seq<u8>) -> Seq<char>
    decreases s.len(),
{
    if s.len() == 0 {
        Seq::empty()
    } else {
        encode_byte(s[0]) + encode_bytes(s.skip(1))
    }
}

/// Whether every character of a stream belongs to the four-symbol alphabet.
pub open spec fn all_symbols(s: Seq<char>) -> bool {
    forall|i: int| 0 <= i < s.len() ==> is_symbol(s[i])
}

/// The 2-bit codes of a symbol stream, character by character.
pub open spec fn codes_of(s: Seq<char>) -> Seq<u8> {
    s.map_values(|c: char| code_of(c))
}

/// One byte reassembled from four 2-bit codes, most significant group first.
pub open spec fn pack4(c0: u8, c1: u8, c2: u8, c3: u8) -> u8 {
    (c0 << 6) | (c1 << 4) | (c2 << 2) | c3
}

/// The bytes of a code stream, one byte per complete run of four codes.
/// A trailing partial run contributes nothing.
pub open spec fn decode_codes(s: Seq<u8>) -> Seq<u8>
    decreases s.len(),
{
    if s.len() < 4 {
        Seq::empty()
    } else {
        seq![pack4(s[0], s[1], s[2], s[3])] + decode_codes(s.skip(4))
    }
}

/// The bytes of a symbol stream: its codes, grouped into runs of four.
pub open spec fn decode_symbols(s: Seq<char>) -> Seq<u8> {
    decode_codes(codes_of(s))
}

/// The longest prefix of a code stream made of complete runs of four.
pub open spec fn complete_part(s: Seq<u8>) -> Seq<u8> {
    s.take(s.len() - (s.len() % 4))
}

/// The trailing partial run: the zero to three codes after the last
/// complete run.
pub open spec fn leftover_part(s: Seq<u8>) -> Seq<u8> {
    s.skip(s.len() - (s.len() % 4))
}

/// Encoding N bytes produces exactly 4N symbols.
pub proof fn lemma_encode_bytes_len(s: Seq<u8>)
    ensures
        encode_bytes(s).len() == 4 * s.len(),
    decreases s.len(),
{
    if s.len() > 0 {
        lemma_encode_bytes_len(s.skip(1));
    }
}

/// Encoding is chunk-boundary independent: encoding two chunks one after
/// the other gives the same symbols as encoding their concatenation.
pub proof fn lemma_encode_bytes_append(a: Seq<u8>, b: Seq<u8>)
    ensures
        encode_bytes(a + b) == encode_bytes(a) + encode_bytes(b),
    decreases a.len(),
{
    if a.len() == 0 {
        assert(a + b =~= b);
        assert(encode_bytes(a) + encode_bytes(b) =~= encode_bytes(b));
    } else {
        assert((a + b).skip(1) =~= a.skip(1) + b);
        lemma_encode_bytes_append(a.skip(1), b);
        assert((a + b)[0] == a[0]);
        assert(encode_bytes(a + b) =~= encode_bytes(a) + encode_bytes(b));
    }
}

/// Every symbol an encoder produces belongs to the four-symbol alphabet.
pub proof fn lemma_encode_alphabet(s: Seq<u8>)
    ensures
        all_symbols(encode_bytes(s)),
    decreases s.len(),
{
    if s.len() > 0 {
        lemma_encode_alphabet(s.skip(1));
        assert forall|i: int| 0 <= i < encode_bytes(s).len() implies is_symbol(
            encode_bytes(s)[i],
        ) by {
            if i < 4 {
                assert(encode_bytes(s)[i] == encode_byte(s[0])[i]);
            } else {
                assert(encode_bytes(s)[i] == encode_bytes(s.skip(1))[i - 4]);
            }
        }
    }
}

/// Decoding a code stream yields one byte per complete run of four codes.
pub proof fn lemma_decode_codes_len(s: Seq<u8>)
    ensures
        decode_codes(s).len() == s.len() / 4,
    decreases s.len(),
{
    if s.len() >= 4 {
        lemma_decode_codes_len(s.skip(4));
    }
}

/// Decoding is chunk-boundary independent over complete runs: a stream that
/// starts with whole runs decodes as those runs followed by the rest.
pub proof fn lemma_decode_codes_append(a: Seq<u8>, b: Seq<u8>)
    requires
        a.len() % 4 == 0,
    ensures
        decode_codes(a + b) == decode_codes(a) + decode_codes(b),
    decreases a.len(),
{
    if a.len() == 0 {
        assert(a + b =~= b);
        assert(decode_codes(a) + decode_codes(b) =~= decode_codes(b));
    } else {
        assert(a.len() >= 4);
        assert((a + b).skip(4) =~= a.skip(4) + b);
        lemma_decode_codes_append(a.skip(4), b);
        assert(decode_codes(a + b) =~= decode_codes(a) + decode_codes(b));
    }
}

/// Round trip: the symbols of any byte sequence are all in the alphabet,
/// come in complete runs of four, and decode back to exactly that sequence.
pub proof fn lemma_round_trip(s: Seq<u8>)
    ensures
        encode_bytes(s).len() % 4 == 0,
        all_symbols(encode_bytes(s)),
        decode_symbols(encode_bytes(s)) == s,
    decreases s.len(),
{
    lemma_encode_bytes_len(s);
    lemma_encode_alphabet(s);
    if s.len() == 0 {
        assert(codes_of(encode_bytes(s)) =~= Seq::<u8>::empty());
        assert(decode_symbols(encode_bytes(s)) =~= s);
    } else {
        let b = s[0];
        let rest = s.skip(1);
        let e = encode_bytes(s);
        let cs = codes_of(e);
        lemma_round_trip(rest);
        lemma_encode_bytes_len(rest);
        assert((b >> 6) & 3 < 4 && (b >> 4) & 3 < 4 && (b >> 2) & 3 < 4 && b & 3 < 4)
            by (bit_vector);
        assert(cs[0] == (b >> 6) & 3 && cs[1] == (b >> 4) & 3 && cs[2] == (b >> 2) & 3 && cs[3]
            == b & 3);
        assert(pack4((b >> 6) & 3, (b >> 4) & 3, (b >> 2) & 3, b & 3) == b) by (bit_vector);
        assert(cs.skip(4) =~= codes_of(encode_bytes(rest)));
        assert(decode_codes(cs) =~= s);
    }
}

/// Encode a byte sequence: four symbols per byte, most significant 2-bit
/// group first, every symbol drawn from the four-symbol alphabet.
pub fn uguuu(input: &Vec<u8>) -> (out: Vec<char>)
    ensures
        out@ == encode_bytes(input@),
        out@.len() == 4 * input@.len(),
        all_symbols(out@),
{
    let mut out: Vec<char> = Vec::new();
    let mut i: usize = 0;
    while i < input.len()
        invariant
            i <= input.len(),
            out@ == encode_bytes(input@.take(i as int)),
        decreases input.len() - i,
    {
        let b = input[i];
        proof {
            assert((b >> 6) & 3 < 4 && (b >> 4) & 3 < 4 && (b >> 2) & 3 < 4 && b & 3 < 4)
                by (bit_vector);
        }
        out.push(uguu((b >> 6) & 3));
        out.push(uguu((b >> 4) & 3));
        out.push(uguu((b >> 2) & 3));
        out.push(uguu(b & 3));
        proof {
            let pre = input@.take(i as int);
            lemma_encode_bytes_append(pre, seq![b]);
            assert(seq![b].skip(1) =~= Seq::<u8>::empty());
            assert(encode_bytes(Seq::<u8>::empty()) =~= Seq::<char>::empty());
            assert(encode_bytes(seq![b]) =~= encode_byte(b));
            assert(input@.take(i as int + 1) =~= pre + seq![b]);
            assert(out@ =~= encode_bytes(input@.take(i as int + 1)));
        }
        i += 1;
    }
    proof {
        assert(input@.take(input.len() as int) =~= input@);
        lemma_encode_bytes_len(input@);
        lemma_encode_alphabet(input@);
    }
    out
}

/// A code stream splits into its complete runs followed by its partial run,
/// and the partial run is shorter than four.
pub proof fn lemma_parts(s: Seq<u8>)
    ensures
        s == complete_part(s) + leftover_part(s),
        complete_part(s).len() % 4 == 0,
        leftover_part(s).len() == s.len() % 4,
{
    assert(s =~= complete_part(s) + leftover_part(s));
}

/// Prepending whole runs shifts the complete part and leaves the partial
/// run untouched.
pub proof fn lemma_parts_after_complete(m: Seq<u8>, t: Seq<u8>)
    requires
        m.len() % 4 == 0,
    ensures
        complete_part(m + t) == m + complete_part(t),
        leftover_part(m + t) == leftover_part(t),
{
    assert((m.len() + t.len()) % 4 == t.len() % 4) by (nonlinear_arith)
        requires
            m.len() % 4 == 0,
    ;
    assert(complete_part(m + t) =~= m + complete_part(t));
    assert(leftover_part(m + t) =~= leftover_part(t));
}

/// Chunk-boundary independence for decoding: from any carried partial run,
/// consuming one code chunk and then another produces the same bytes and
/// the same final partial run as consuming their concatenation at once.
pub proof fn lemma_decode_chunk_boundary(p: Seq<u8>, c1: Seq<u8>, c2: Seq<u8>)
    ensures
        decode_codes(complete_part(p + c1)) + decode_codes(
            complete_part(leftover_part(p + c1) + c2),
        ) == decode_codes(complete_part(p + (c1 + c2))),
        leftover_part(leftover_part(p + c1) + c2) == leftover_part(p + (c1 + c2)),
{
    let a = p + c1;
    lemma_parts(a);
    lemma_parts_after_complete(complete_part(a), leftover_part(a) + c2);
    assert(p + (c1 + c2) =~= complete_part(a) + (leftover_part(a) + c2));
    lemma_decode_codes_append(complete_part(a), complete_part(leftover_part(a) + c2));
}

/// Pack four 2-bit codes into one byte, most significant group first.
fn pack(c0: u8, c1: u8, c2: u8, c3: u8) -> (b: u8)
    ensures
        b == pack4(c0, c1, c2, c3),
{
    (c0 << 6) | (c1 << 4) | (c2 << 2) | c3
}

/// Streaming decode state: the partial run of codes carried from one chunk
/// of input to the next, so that a run of four may span chunk boundaries.
pub struct DecodeCursor {
    pending: Vec<u8>,
}

impl DecodeCursor {
    /// The 2-bit codes consumed toward the byte currently in progress.
    pub closed spec fn pending_codes(self) -> Seq<u8> {
        self.pending@
    }

    /// Well-formedness: fewer than four codes pending, each a 2-bit value.
    pub open spec fn wf(self) -> bool {
        &&& self.pending_codes().len() < 4
        &&& (forall|i: int| 0 <= i < self.pending_codes().len() ==> self.pending_codes()[i] < 4)
    }

    /// A fresh cursor, at the start of a pass.
    pub fn new() -> (c: DecodeCursor)
        ensures
            c.wf(),
            c.pending_codes() == Seq::<u8>::empty(),
    {
        DecodeCursor { pending: Vec::new() }
    }

    /// Feed one chunk of symbols. On a chunk wholly inside the alphabet,
    /// every run of four codes seen so far becomes one output byte, and the
    /// partial run after the chunk is carried for the next call; on a chunk
    /// with any foreign character, the call fails with `InvalidSymbol` and
    /// changes nothing.
    pub fn push(&mut self, chunk: &Vec<char>, out: &mut Vec<u8>) -> (r: Result<(), UguuError>)
        requires
            old(self).wf(),
        ensures
            final(self).wf(),
            all_symbols(chunk@) ==> ({
                let all = old(self).pending_codes() + codes_of(chunk@);
                &&& r == Ok::<(), UguuError>(())
                &&& final(self).pending_codes() == leftover_part(all)
                &&& final(out)@ == old(out)@ + decode_codes(complete_part(all))
            }),
            !all_symbols(chunk@) ==> ({
                &&& r == Err::<(), UguuError>(UguuError::InvalidSymbol)
                &&& *final(self) == *old(self)
                &&& final(out)@ == old(out)@
            }),
    {
        let mut codes: Vec<u8> = Vec::new();
        let mut i: usize = 0;
        while i < chunk.len()
            invariant
                i <= chunk@.len(),
                codes@ == codes_of(chunk@.take(i as int)),
                forall|j: int| 0 <= j < i ==> is_symbol(chunk@[j]),
                old(self).wf(),
            decreases chunk@.len() - i,
        {
            match uugu(chunk[i]) {
                Ok(k) => {
                    codes.push(k);
                },
                Err(e) => {
                    proof {
                        assert(!is_symbol(chunk@[i as int]));
                        assert(!all_symbols(chunk@));
                    }
                    return Err(e);
                },
            }
            proof {
                assert(codes_of(chunk@.take(i as int + 1)) =~= codes_of(chunk@.take(i as int)).push(
                    code_of(chunk@[i as int]),
                ));
            }
            i += 1;
        }
        proof {
            assert(chunk@.take(chunk@.len() as int) =~= chunk@);
        }
        let ghost all = old(self).pending_codes() + codes_of(chunk@);
        let mut j: usize = 0;
        proof {
            assert(old(self).pending_codes() + codes@.take(0) =~= old(self).pending_codes());
            lemma_parts(old(self).pending_codes());
            assert(leftover_part(old(self).pending_codes()) =~= old(self).pending_codes());
            assert(complete_part(old(self).pending_codes()) =~= Seq::<u8>::empty());
            assert(out@ =~= out@ + decode_codes(Seq::<u8>::empty()));
        }
        while j < codes.len()
            invariant
                j <= codes@.len(),
                codes@ == codes_of(chunk@),
                forall|k: int| 0 <= k < codes@.len() ==> codes@[k] < 4,
                old(self).wf(),
                self.wf(),
                ({
                    let c = old(self).pending_codes() + codes@.take(j as int);
                    &&& self.pending_codes() == leftover_part(c)
                    &&& out@ == old(out)@ + decode_codes(complete_part(c))
                }),
            decreases codes@.len() - j,
        {
            let ghost c = old(self).pending_codes() + codes@.take(j as int);
            let k = codes[j];
            self.pending.push(k);
            proof {
                lemma_parts(c);
                assert(c + seq![k] =~= old(self).pending_codes() + codes@.take(j as int + 1));
            }
            if self.pending.len() == 4 {
                let b = pack(self.pending[0], self.pending[1], self.pending[2], self.pending[3]);
                out.push(b);
                self.pending = Vec::new();
                proof {
                    let c2 = c + seq![k];
                    let run = leftover_part(c) + seq![k];
                    assert(run.len() == 4);
                    assert(run.skip(4) =~= Seq::<u8>::empty());
                    assert(decode_codes(Seq::<u8>::empty()) =~= Seq::<u8>::empty());
                    assert(decode_codes(run) =~= seq![pack4(run[0], run[1], run[2], run[3])]);
                    lemma_parts_after_complete(complete_part(c), run);
                    assert(c2 =~= complete_part(c) + run);
                    assert(complete_part(run) =~= run);
                    assert(leftover_part(run) =~= Seq::<u8>::empty());
                    lemma_decode_codes_append(complete_part(c), run);
                    assert(self.pending_codes() =~= leftover_part(c2));
                    assert(out@ =~= old(out)@ + decode_codes(complete_part(c2)));
                }
            } else {
                proof {
                    let c2 = c + seq![k];
                    assert(c2.len() % 4 == c.len() % 4 + 1);
                    assert(complete_part(c2) =~= complete_part(c));
                    assert(leftover_part(c2) =~= leftover_part(c) + seq![k]);
                    assert(self.pending_codes() =~= leftover_part(c2));
                }
            }
            j += 1;
        }
        proof {
            assert(codes@.take(codes@.len() as int) =~= codes@);
            assert(old(self).pending_codes() + codes@ =~= all);
        }
        Ok(())
    }

    /// End the pass: succeeds exactly when no partial run is pending;
    /// a pending run of one to three codes is a truncated stream.
    pub fn finish(&self) -> (r: Result<(), UguuError>)
        ensures
            self.pending_codes().len() == 0 ==> r == Ok::<(), UguuError>(()),
            self.pending_codes().len() != 0 ==> r == Err::<(), UguuError>(
                UguuError::TruncatedStream,
            ),
    {
        if self.pending.len() == 0 {
            Ok(())
        } else {
            Err(UguuError::TruncatedStream)
        }
    }
}

/// Decode a whole symbol stream. Succeeds exactly on streams wholly inside
/// the four-symbol alphabet whose length is a multiple of four, producing
/// one byte per run of four symbols; a foreign character fails with
/// `InvalidSymbol`, and a trailing partial run fails with `TruncatedStream`.
pub fn uuugu(input: &Vec<char>) -> (r: Result<Vec<u8>, UguuError>)
    ensures
        all_symbols(input@) && input@.len() % 4 == 0 ==> ({
            &&& r is Ok
            &&& r->Ok_0@ == decode_symbols(input@)
            &&& r->Ok_0@.len() == input@.len() / 4
        }),
        !all_symbols(input@) ==> r == Err::<Vec<u8>, UguuError>(UguuError::InvalidSymbol),
        all_symbols(input@) && input@.len() % 4 != 0 ==> r == Err::<Vec<u8>, UguuError>(
            UguuError::TruncatedStream,
        ),
{
    let mut cursor = DecodeCursor::new();
    let mut out: Vec<u8> = Vec::new();
    let ghost all = cursor.pending_codes() + codes_of(input@);
    match cursor.push(input, &mut out) {
        Ok(()) => {},
        Err(e) => {
            return Err(e);
        },
    }
    proof {
        assert(all =~= codes_of(input@));
        lemma_parts(all);
    }
    match cursor.finish() {
        Ok(()) => {},
        Err(e) => {
            return Err(e);
        },
    }
    proof {
        assert(all.len() % 4 == 0);
        assert(complete_part(all) =~= all);
        lemma_decode_codes_len(all);
    }
    Ok(out)
}

} // verus!
